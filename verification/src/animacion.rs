//! Animaciones: cuántos fotogramas y con qué desfase, los colores
//! hexadecimales, el color para la terminal y las piezas del SVG animado.

use vstd::arithmetic::div_mod::{
    lemma_fundamental_div_mod, lemma_fundamental_div_mod_converse, lemma_mod_bound,
};
use vstd::prelude::*;

use crate::ansi::{quitar_ansi_linea, sin_ansi};
use crate::composicion::{lema_unir_push, unir};
use crate::texto::{
    caracteres, cadena, en_blanco, es_espacio, espacio, grafemas, grafemas_de, sin_espacio_final, vista,
};
use crate::Error;

verus! {

/// Tope de fotogramas cuando se calculan solos.
pub const FOTOGRAMAS_MAX: usize = 240;

/// Fotogramas por defecto cuando el texto no se mueve (solo late).
pub const FOTOGRAMAS_LATIDO: usize = 24;

/// Máximo común divisor, por el algoritmo de Euclides.
pub open spec fn mcd_de(a: nat, b: nat) -> nat
    decreases b,
{
    if b == 0 {
        a
    } else {
        mcd_de(b, a % b)
    }
}

/// Máximo común divisor de `a` y `b` (`a` si `b` es 0).
pub fn mcd(a: usize, b: usize) -> (g: usize)
    ensures
        g == mcd_de(a as nat, b as nat),
    decreases b,
{
    if b == 0 {
        a
    } else {
        mcd(b, a % b)
    }
}

/// `d` divide a `a`: `a` es `d` por algún entero.
pub open spec fn divide(d: int, a: int) -> bool {
    exists|k: int| #[trigger] (d * k) == a
}

/// El máximo común divisor divide a los dos y es combinación entera de
/// ellos (identidad de Bézout).
proof fn lema_mcd(a: nat, b: nat) -> (xy: (int, int))
    ensures
        divide(mcd_de(a, b) as int, a as int),
        divide(mcd_de(a, b) as int, b as int),
        a * xy.0 + b * xy.1 == mcd_de(a, b),
    decreases b,
{
    if b == 0 {
        assert(a * 1 == a);
        assert(a * 0 == 0);
        (1, 0)
    } else {
        let r = a % b;
        let q = a / b;
        lemma_fundamental_div_mod(a as int, b as int);
        lemma_mod_bound(a as int, b as int);
        let (x, y) = lema_mcd(b, r);
        let g = mcd_de(b, r) as int;
        let kb = choose|k: int| #[trigger] (g * k) == b;
        let kr = choose|k: int| #[trigger] (g * k) == r;
        assert(g * (kb * q + kr) == a) by (nonlinear_arith)
            requires
                g * kb == b,
                g * kr == r,
                a == b * q + r,
        ;
        assert(a * y + b * (x - q * y) == g) by (nonlinear_arith)
            requires
                b * x + r * y == g,
                a == b * q + r,
        ;
        (y, x - q * y)
    }
}

/// Ley del bucle sin costura: con `paso > 0`, tras `ciclo / mcd(ciclo,
/// paso)` fotogramas el texto ha avanzado un número entero de vueltas, y con
/// ningún número menor (positivo) de fotogramas lo ha hecho.
pub proof fn ley_bucle_sin_costura(ciclo: nat, paso: nat)
    requires
        ciclo > 0,
        paso > 0,
    ensures
        ({
            let n = (ciclo / mcd_de(ciclo, paso)) as int;
            &&& n > 0
            &&& (n * paso) % (ciclo as int) == 0
            &&& forall|k: int| 0 < k < n ==> #[trigger] ((k * paso) % (ciclo as int)) != 0
        }),
{
    let (x, y) = lema_mcd(ciclo, paso);
    let g = mcd_de(ciclo, paso) as int;
    let c = ciclo as int;
    let p = paso as int;
    let cc = choose|k: int| #[trigger] (g * k) == c;
    let pp = choose|k: int| #[trigger] (g * k) == p;
    assert(g > 0 && cc > 0) by (nonlinear_arith)
        requires
            g * cc == c,
            c > 0,
            g >= 0,
    ;
    assert(c / g == cc) by {
        lemma_fundamental_div_mod_converse(c, g, cc, 0);
    }
    let n = cc;
    assert(n * p == c * pp) by (nonlinear_arith)
        requires
            g * cc == c,
            g * pp == p,
            n == cc,
    ;
    assert((n * p) % c == 0) by {
        lemma_fundamental_div_mod_converse(n * p, c, pp, 0);
    }
    // c' x + p' y = 1: c' divide a k p' solo si divide a k.
    assert(cc * x + pp * y == 1) by (nonlinear_arith)
        requires
            c * x + p * y == g,
            g * cc == c,
            g * pp == p,
            g > 0,
    ;
    assert forall|k: int| 0 < k < n implies #[trigger] ((k * paso) % c) != 0 by {
        if (k * p) % c == 0 {
            lemma_fundamental_div_mod(k * p, c);
            let m = (k * p) / c;
            assert(k * pp == cc * m) by (nonlinear_arith)
                requires
                    k * p == c * m,
                    g * cc == c,
                    g * pp == p,
                    g > 0,
            ;
            assert(k == cc * (k * x + m * y)) by (nonlinear_arith)
                requires
                    k * pp == cc * m,
                    cc * x + pp * y == 1,
            ;
            assert(false) by (nonlinear_arith)
                requires
                    k == cc * (k * x + m * y),
                    0 < k < cc,
            ;
        }
    }
}

/// Cuántos fotogramas tiene la animación: los pedidos; si no, con el texto
/// quieto (`paso` 0) 24 si la figura late y 1 si no; y si el texto avanza,
/// los justos para que dé la vuelta completa sin costura
/// (`ciclo / mcd(ciclo, paso)`), hasta `FOTOGRAMAS_MAX`.
pub fn fotogramas(pedidos: Option<usize>, paso: usize, late: bool, ciclo: usize) -> (n: usize)
    requires
        ciclo > 0,
    ensures
        n == num_fotogramas(pedidos, paso, late, ciclo as nat),
{
    fotogramas_exec(pedidos, paso, late, ciclo)
}

/// Cuántos fotogramas tiene la animación (ver `fotogramas`).
pub open spec fn num_fotogramas(pedidos: Option<usize>, paso: usize, late: bool, ciclo: nat) -> int {
    match pedidos {
        Some(f) => f as int,
        None => if paso == 0 {
            if late {
                FOTOGRAMAS_LATIDO as int
            } else {
                1
            }
        } else if ciclo / mcd_de(ciclo, paso as nat) <= FOTOGRAMAS_MAX {
            (ciclo / mcd_de(ciclo, paso as nat)) as int
        } else {
            FOTOGRAMAS_MAX as int
        },
    }
}

fn fotogramas_exec(pedidos: Option<usize>, paso: usize, late: bool, ciclo: usize) -> (n: usize)
    requires
        ciclo > 0,
    ensures
        n == match pedidos {
            Some(f) => f as int,
            None => if paso == 0 {
                if late {
                    FOTOGRAMAS_LATIDO as int
                } else {
                    1
                }
            } else if (ciclo as nat) / mcd_de(ciclo as nat, paso as nat) <= FOTOGRAMAS_MAX {
                ((ciclo as nat) / mcd_de(ciclo as nat, paso as nat)) as int
            } else {
                FOTOGRAMAS_MAX as int
            },
        },
{
    match pedidos {
        Some(f) => f,
        None => {
            if paso == 0 {
                if late {
                    FOTOGRAMAS_LATIDO
                } else {
                    1
                }
            } else {
                let g = mcd(ciclo, paso);
                proof {
                    let _ = lema_mcd(ciclo as nat, paso as nat);
                    let gg = g as int;
                    let k = choose|k: int| #[trigger] (gg * k) == ciclo;
                    assert(gg > 0) by (nonlinear_arith)
                        requires
                            gg * k == ciclo,
                            ciclo > 0,
                            gg >= 0,
                    ;
                }
                let n = ciclo / g;
                if n <= FOTOGRAMAS_MAX {
                    n
                } else {
                    FOTOGRAMAS_MAX
                }
            }
        },
    }
}

/// El desfase de cada fotograma: el fotograma `i` empieza `i * paso` letras
/// después del primero.
pub fn desfases(desfase: usize, paso: usize, n: usize) -> (v: Vec<usize>)
    requires
        n > 0 ==> desfase + (n - 1) * paso <= usize::MAX,
    ensures
        v@.len() == n,
        forall|i: int| 0 <= i < n ==> #[trigger] v@[i] == desfase + i * paso,
{
    let mut v: Vec<usize> = Vec::new();
    let mut d = desfase;
    let mut i: usize = 0;
    while i < n
        invariant
            i <= n,
            n > 0 ==> desfase + (n - 1) * paso <= usize::MAX,
            v@.len() == i,
            i < n ==> d == desfase + i * paso,
            forall|j: int| 0 <= j < i ==> #[trigger] v@[j] == desfase + j * paso,
        decreases n - i,
    {
        v.push(d);
        if i + 1 < n {
            assert(desfase + (i + 1) * paso <= desfase + (n - 1) * paso) by (nonlinear_arith)
                requires
                    i + 1 <= n - 1,
            ;
            assert((i + 1) * paso == i * paso + paso) by (nonlinear_arith);
            d = d + paso;
        }
        i = i + 1;
    }
    v
}

/// Lo que dice un color mal escrito.
pub const MAL_COLOR: &'static str = "los colores van en hexadecimal: #rgb o #rrggbb";

/// `s` sin los espacios Unicode del principio (`trim_start`).
pub open spec fn sin_espacio_inicial(s: Seq<char>) -> Seq<char>
    decreases s.len(),
{
    if s.len() > 0 && es_espacio(s[0]) {
        sin_espacio_inicial(s.drop_first())
    } else {
        s
    }
}

/// `s` sin espacios Unicode en los extremos (`trim`).
pub open spec fn recortado(s: Seq<char>) -> Seq<char> {
    sin_espacio_final(sin_espacio_inicial(s))
}

/// Valor de un dígito hexadecimal (`char::to_digit(16)`).
pub open spec fn valor_hex(c: char) -> Option<u8> {
    let u = c as u32;
    if 48 <= u <= 57 {
        Some((u - 48) as u8)
    } else if 97 <= u <= 102 {
        Some((u - 87) as u8)
    } else if 65 <= u <= 70 {
        Some((u - 55) as u8)
    } else {
        None
    }
}

/// Bytes que ocupa un carácter en UTF-8 (`char::len_utf8`).
pub open spec fn largo_utf8(c: char) -> nat {
    let u = c as u32;
    if u < 0x80 {
        1
    } else if u < 0x800 {
        2
    } else if u < 0x10000 {
        3
    } else {
        4
    }
}

/// Bytes que ocupa un texto en UTF-8 (`str::len`).
pub open spec fn bytes_utf8(s: Seq<char>) -> nat
    decreases s.len(),
{
    if s.len() == 0 {
        0
    } else {
        bytes_utf8(s.drop_last()) + largo_utf8(s.last())
    }
}

/// Todos los caracteres de `h` son cifras hexadecimales.
pub open spec fn todo_hex(h: Seq<char>) -> bool {
    forall|i: int| 0 <= i < h.len() ==> valor_hex(#[trigger] h[i]) is Some
}

/// El canal que escriben las cifras hexadecimales `a` y `b`.
pub open spec fn canal(a: char, b: char) -> u8 {
    (16 * valor_hex(a)->0 + valor_hex(b)->0) as u8
}

/// El color que dice `s`, si es uno: sin espacios en los extremos, un `#` y
/// tres cifras hexadecimales (cada una vale por dos iguales) o seis (dos por
/// canal), en mayúscula o en minúscula.
pub open spec fn color_de(s: Seq<char>) -> Option<Seq<u8>> {
    let t = recortado(s);
    let h = t.drop_first();
    if t.len() == 0 || t[0] != '#' || !todo_hex(h) {
        None
    } else if h.len() == 3 {
        Some(
            seq![
                (17 * valor_hex(h[0])->0) as u8,
                (17 * valor_hex(h[1])->0) as u8,
                (17 * valor_hex(h[2])->0) as u8,
            ],
        )
    } else if h.len() == 6 {
        Some(seq![canal(h[0], h[1]), canal(h[2], h[3]), canal(h[4], h[5])])
    } else {
        None
    }
}

fn digito_hex(c: char) -> (r: Option<u8>)
    ensures
        r == valor_hex(c),
{
    let u = c as u32;
    if 48 <= u && u <= 57 {
        Some((u - 48) as u8)
    } else if 97 <= u && u <= 102 {
        Some((u - 87) as u8)
    } else if 65 <= u && u <= 70 {
        Some((u - 55) as u8)
    } else {
        None
    }
}

proof fn lema_sin_inicial(s: Seq<char>, a: int)
    requires
        0 <= a <= s.len(),
        forall|k: int| 0 <= k < a ==> es_espacio(#[trigger] s[k]),
    ensures
        sin_espacio_inicial(s) == sin_espacio_inicial(s.subrange(a, s.len() as int)),
    decreases a,
{
    if a > 0 {
        assert(s.drop_first().subrange(a - 1, s.drop_first().len() as int) =~= s.subrange(
            a,
            s.len() as int,
        ));
        lema_sin_inicial(s.drop_first(), a - 1);
    } else {
        assert(s.subrange(0, s.len() as int) =~= s);
    }
}

proof fn lema_sin_final(s: Seq<char>, b: int)
    requires
        0 <= b <= s.len(),
        forall|k: int| b <= k < s.len() ==> es_espacio(#[trigger] s[k]),
    ensures
        sin_espacio_final(s) == sin_espacio_final(s.subrange(0, b)),
    decreases s.len() - b,
{
    if b < s.len() {
        assert(s.drop_last().subrange(0, b) =~= s.subrange(0, b));
        lema_sin_final(s.drop_last(), b);
    } else {
        assert(s.subrange(0, b) =~= s);
    }
}

/// Los caracteres de `s` sin espacios en los extremos.
fn recortar_espacios(s: &Vec<char>) -> (r: Vec<char>)
    ensures
        r@ == recortado(s@),
{
    let n = s.len();
    let mut a: usize = 0;
    while a < n && espacio(s[a])
        invariant
            a <= n,
            n == s@.len(),
            forall|k: int| 0 <= k < a ==> es_espacio(#[trigger] s@[k]),
        decreases n - a,
    {
        a = a + 1;
    }
    let ghost t = s@.subrange(a as int, n as int);
    proof {
        lema_sin_inicial(s@, a as int);
        if a < n {
            assert(t[0] == s@[a as int]);
        }
        assert(sin_espacio_inicial(t) == t);
    }
    let mut b: usize = n;
    while b > a && espacio(s[b - 1])
        invariant
            a <= b <= n,
            n == s@.len(),
            forall|k: int| b <= k < n ==> es_espacio(#[trigger] s@[k]),
        decreases b - a,
    {
        b = b - 1;
    }
    proof {
        assert forall|k: int| b - a <= k < t.len() implies es_espacio(#[trigger] t[k]) by {
            assert(t[k] == s@[a + k]);
        }
        lema_sin_final(t, b - a);
        let u = t.subrange(0, b - a);
        if b > a {
            assert(u.last() == s@[b - 1]);
        }
        assert(sin_espacio_final(u) == u);
    }
    let mut r: Vec<char> = Vec::new();
    let mut i = a;
    while i < b
        invariant
            a <= i <= b <= n,
            n == s@.len(),
            r@ == s@.subrange(a as int, i as int),
        decreases b - i,
    {
        r.push(s[i]);
        i = i + 1;
        assert(r@ =~= s@.subrange(a as int, i as int));
    }
    assert(r@ =~= t.subrange(0, b - a));
    r
}

/// Color `#rgb` o `#rrggbb` (se ignoran los espacios de los extremos); otro
/// texto es una opción inválida.
pub fn color(s: &str) -> (r: Result<[u8; 3], Error>)
    ensures
        match color_de(s@) {
            Some(v) => r matches Ok(c) && c@ == v,
            None => r == Err::<[u8; 3], Error>(Error::OpcionInvalida(MAL_COLOR)),
        },
{
    let cs = caracteres(s);
    let t = recortar_espacios(&cs);
    if t.len() == 0 || t[0] != '#' {
        return Err(Error::OpcionInvalida(MAL_COLOR));
    }
    let ghost h = t@.drop_first();
    let mut v: Vec<u8> = Vec::new();
    let mut i: usize = 1;
    while i < t.len()
        invariant
            1 <= i <= t@.len(),
            t@ == recortado(s@),
            t@[0] == '#',
            h == t@.drop_first(),
            v@.len() == i - 1,
            forall|k: int| 0 <= k < i - 1 ==> valor_hex(h[k]) == Some(#[trigger] v@[k]),
        decreases t.len() - i,
    {
        match digito_hex(t[i]) {
            Some(d) => {
                v.push(d);
            },
            None => {
                assert(valor_hex(h[i - 1]) is None);
                return Err(Error::OpcionInvalida(MAL_COLOR));
            },
        }
        i = i + 1;
    }
    assert(todo_hex(h)) by {
        assert forall|k: int| 0 <= k < h.len() implies valor_hex(#[trigger] h[k]) is Some by {
            assert(valor_hex(h[k]) == Some(v@[k]));
        }
    }
    if v.len() == 3 {
        Ok([17 * v[0], 17 * v[1], 17 * v[2]])
    } else if v.len() == 6 {
        let c = [16 * v[0] + v[1], 16 * v[2] + v[3], 16 * v[4] + v[5]];
        assert(c@ =~= color_de(s@)->0);
        Ok(c)
    } else {
        Err(Error::OpcionInvalida(MAL_COLOR))
    }
}


/// Las cifras hexadecimales, en minúscula.
pub open spec fn cifra(n: int) -> char {
    seq!['0', '1', '2', '3', '4', '5', '6', '7', '8', '9', 'a', 'b', 'c', 'd', 'e', 'f'][n]
}

fn cifra_exec(n: u8) -> (c: char)
    requires
        n < 16,
    ensures
        c == cifra(n as int),
{
    match n {
        0 => '0',
        1 => '1',
        2 => '2',
        3 => '3',
        4 => '4',
        5 => '5',
        6 => '6',
        7 => '7',
        8 => '8',
        9 => '9',
        10 => 'a',
        11 => 'b',
        12 => 'c',
        13 => 'd',
        14 => 'e',
        _ => 'f',
    }
}

/// Un byte en dos cifras hexadecimales.
pub open spec fn dos_cifras(b: u8) -> Seq<char> {
    seq![cifra((b / 16) as int), cifra((b % 16) as int)]
}

/// El color como `#rrggbb`, en minúscula.
pub open spec fn hex_de(c: [u8; 3]) -> Seq<char> {
    seq!['#'] + dos_cifras(c@[0]) + dos_cifras(c@[1]) + dos_cifras(c@[2])
}

/// El color como `#rrggbb`, en minúscula.
pub fn hex(c: [u8; 3]) -> (s: String)
    ensures
        s@ == hex_de(c),
{
    let mut v: Vec<char> = Vec::new();
    v.push('#');
    let mut i: usize = 0;
    while i < 3
        invariant
            i <= 3,
            v@ == seq!['#'] + if i == 0 {
                seq![]
            } else if i == 1 {
                dos_cifras(c@[0])
            } else if i == 2 {
                dos_cifras(c@[0]) + dos_cifras(c@[1])
            } else {
                dos_cifras(c@[0]) + dos_cifras(c@[1]) + dos_cifras(c@[2])
            },
        decreases 3 - i,
    {
        let b = c[i];
        v.push(cifra_exec(b / 16));
        v.push(cifra_exec(b % 16));
        i = i + 1;
        assert(v@ =~= seq!['#'] + if i == 1 {
            dos_cifras(c@[0])
        } else if i == 2 {
            dos_cifras(c@[0]) + dos_cifras(c@[1])
        } else {
            dos_cifras(c@[0]) + dos_cifras(c@[1]) + dos_cifras(c@[2])
        });
    }
    cadena(v.as_slice())
}

/// Cómo se escribe un carácter dentro de un texto XML.
pub open spec fn escapado_de(c: char) -> Seq<char> {
    if c == '&' {
        seq!['&', 'a', 'm', 'p', ';']
    } else if c == '<' {
        seq!['&', 'l', 't', ';']
    } else if c == '>' {
        seq!['&', 'g', 't', ';']
    } else {
        seq![c]
    }
}

/// `s` con `&`, `<` y `>` escritos como entidades XML.
pub open spec fn escapado(s: Seq<char>) -> Seq<char>
    decreases s.len(),
{
    if s.len() == 0 {
        seq![]
    } else {
        escapado(s.drop_last()) + escapado_de(s.last())
    }
}

fn anadir(v: &mut Vec<char>, a: &[char])
    ensures
        final(v)@ == old(v)@ + a@,
{
    let mut i: usize = 0;
    while i < a.len()
        invariant
            i <= a@.len(),
            v@ == old(v)@ + a@.take(i as int),
        decreases a.len() - i,
    {
        v.push(a[i]);
        i = i + 1;
        assert(v@ =~= old(v)@ + a@.take(i as int));
    }
    assert(a@.take(a@.len() as int) =~= a@);
}

/// `&`, `<` y `>` como entidades XML (`&amp;`, `&lt;`, `&gt;`).
pub fn escapar(s: &str) -> (r: String)
    ensures
        r@ == escapado(s@),
{
    let cs = caracteres(s);
    let mut v: Vec<char> = Vec::new();
    let mut i: usize = 0;
    while i < cs.len()
        invariant
            i <= cs@.len(),
            cs@ == s@,
            v@ == escapado(cs@.take(i as int)),
        decreases cs.len() - i,
    {
        assert(cs@.take(i + 1).drop_last() =~= cs@.take(i as int));
        let c = cs[i];
        if c == '&' {
            let e = ['&', 'a', 'm', 'p', ';'];
            anadir(&mut v, &e);
            assert(e@ =~= seq!['&', 'a', 'm', 'p', ';']);
        } else if c == '<' {
            let e = ['&', 'l', 't', ';'];
            anadir(&mut v, &e);
            assert(e@ =~= seq!['&', 'l', 't', ';']);
        } else if c == '>' {
            let e = ['&', 'g', 't', ';'];
            anadir(&mut v, &e);
            assert(e@ =~= seq!['&', 'g', 't', ';']);
        } else {
            v.push(c);
        }
        i = i + 1;
    }
    assert(cs@.take(cs@.len() as int) =~= cs@);
    cadena(v.as_slice())
}

/// Los trozos de `s` entre saltos de línea (`str::split('\n')`): siempre
/// al menos uno.
pub open spec fn partes(s: Seq<char>) -> Seq<Seq<char>>
    decreases s.len(),
{
    if s.len() == 0 {
        seq![Seq::empty()]
    } else {
        let ls = partes(s.drop_last());
        if s.last() == '\n' {
            ls.push(Seq::empty())
        } else {
            ls.update(ls.len() - 1, ls.last().push(s.last()))
        }
    }
}

pub(crate) proof fn lema_partes_no_vacio(s: Seq<char>)
    ensures
        partes(s).len() >= 1,
    decreases s.len(),
{
    if s.len() > 0 {
        lema_partes_no_vacio(s.drop_last());
    }
}

/// Unir los trozos con saltos de línea devuelve el texto.
pub proof fn ley_partes_unir(s: Seq<char>)
    ensures
        unir(partes(s)) == s,
        forall|k: int| 0 <= k < partes(s).len() ==> !(#[trigger] partes(s)[k]).contains('\n'),
    decreases s.len(),
{
    lema_partes_no_vacio(s);
    if s.len() > 0 {
        let d = s.drop_last();
        let ls = partes(d);
        ley_partes_unir(d);
        lema_partes_no_vacio(d);
        if s.last() == '\n' {
            lema_unir_push(ls, Seq::empty());
            assert(s =~= d + seq!['\n'] + Seq::<char>::empty());
        } else {
            let n = ls.len();
            let nuevo = ls.update(n - 1, ls.last().push(s.last()));
            if n == 1 {
                assert(s =~= ls[0].push(s.last()));
            } else {
                assert(nuevo.drop_last() =~= ls.drop_last());
                assert(unir(ls) == unir(ls.drop_last()) + seq!['\n'] + ls.last());
                assert(s =~= d.push(s.last()));
                let a = unir(ls.drop_last()) + seq!['\n'];
                assert(d =~= a + ls.last());
                assert((a + ls.last()).push(s.last()) =~= a + ls.last().push(s.last()));
                assert(nuevo.last() == ls.last().push(s.last()));
                assert(unir(nuevo) == unir(nuevo.drop_last()) + seq!['\n'] + nuevo.last());
            }
            assert forall|k: int| 0 <= k < nuevo.len() implies !(#[trigger] nuevo[k]).contains(
                '\n',
            ) by {
                if k == n - 1 {
                    assert forall|j: int| 0 <= j < nuevo[k].len() implies nuevo[k][j] != '\n' by {
                        if j < ls.last().len() {
                            assert(!ls[n - 1].contains('\n'));
                            assert(nuevo[k][j] == ls[n - 1][j]);
                        }
                    }
                }
            }
        }
    } else {
        assert(unir(seq![Seq::<char>::empty()]) == Seq::<char>::empty());
    }
}

/// Los trozos de `s` entre saltos de línea.
pub fn partir(s: &Vec<char>) -> (r: Vec<Vec<char>>)
    ensures
        vista(r@) == partes(s@),
{
    let mut hechas: Vec<Vec<char>> = Vec::new();
    let mut actual: Vec<char> = Vec::new();
    let mut i: usize = 0;
    while i < s.len()
        invariant
            i <= s@.len(),
            partes(s@.take(i as int)) == vista(hechas@).push(actual@),
        decreases s.len() - i,
    {
        assert(s@.take(i + 1).drop_last() =~= s@.take(i as int));
        let c = s[i];
        if c == '\n' {
            let hecha = actual;
            hechas.push(hecha);
            actual = Vec::new();
            assert(vista(hechas@).push(actual@) =~= partes(s@.take(i as int)).push(Seq::empty()));
        } else {
            actual.push(c);
            assert(vista(hechas@).push(actual@) =~= partes(s@.take(i as int)).update(
                vista(hechas@).len() as int,
                partes(s@.take(i as int)).last().push(c),
            ));
        }
        i = i + 1;
    }
    hechas.push(actual);
    assert(s@.take(s@.len() as int) =~= s@);
    assert(vista(hechas@) =~= partes(s@));
    hechas
}

/// Un byte en decimal, sin ceros a la izquierda.
pub open spec fn decimal(n: u8) -> Seq<char> {
    if n < 10 {
        seq![cifra(n as int)]
    } else if n < 100 {
        seq![cifra((n / 10) as int), cifra((n % 10) as int)]
    } else {
        seq![cifra((n / 100) as int), cifra(((n / 10) % 10) as int), cifra((n % 10) as int)]
    }
}

fn decimal_exec(v: &mut Vec<char>, n: u8)
    ensures
        final(v)@ == old(v)@ + decimal(n),
{
    if n < 10 {
        v.push(cifra_exec(n));
    } else if n < 100 {
        v.push(cifra_exec(n / 10));
        v.push(cifra_exec(n % 10));
    } else {
        v.push(cifra_exec(n / 100));
        v.push(cifra_exec((n / 10) % 10));
        v.push(cifra_exec(n % 10));
    }
    assert(v@ =~= old(v)@ + decimal(n));
}

/// La secuencia ANSI que cambia el color del texto (truecolor).
pub open spec fn cambio_color(c: [u8; 3]) -> Seq<char> {
    seq!['\x1b', '[', '3', '8', ';', '2', ';'] + decimal(c@[0]) + seq![';'] + decimal(c@[1]) + seq![
        ';',
    ] + decimal(c@[2]) + seq!['m']
}

/// La secuencia ANSI que vuelve al color normal.
pub open spec fn restablecer() -> Seq<char> {
    seq!['\x1b', '[', '0', 'm']
}

/// Los grafemas `gs[k..]` de una línea pintados con la `paleta` (un color
/// por columna), sabiendo que el último color puesto es `previo`: cada
/// grafema que no es un espacio lleva delante el cambio a su color si no es
/// el que ya estaba; al final, si se puso algún color, se restablece.
pub open spec fn pintar(gs: Seq<Seq<char>>, paleta: Seq<[u8; 3]>, k: int, previo: Option<[u8; 3]>) -> Seq<
    char,
>
    decreases gs.len() - k,
{
    if k >= gs.len() || k < 0 {
        if previo is Some {
            restablecer()
        } else {
            seq![]
        }
    } else {
        let c = paleta[k];
        let cambia = gs[k] != seq![' '] && previo != Some(c);
        (if cambia {
            cambio_color(c)
        } else {
            seq![]
        }) + gs[k] + pintar(
            gs,
            paleta,
            k + 1,
            if cambia {
                Some(c)
            } else {
                previo
            },
        )
    }
}

/// El fotograma pintado: sin colores, tal cual (con el color ANSI que ya
/// traiga); si no, cada línea sin sus secuencias ANSI (el degradado manda)
/// y pintada con `pintar`.
pub open spec fn coloreado(s: Seq<char>, paleta: Seq<[u8; 3]>) -> Seq<char> {
    if paleta.len() == 0 {
        s
    } else {
        unir(partes(s).map_values(|l: Seq<char>| pintar(grafemas_de(sin_ansi(l)), paleta, 0, None)))
    }
}

/// Cada línea (con algo de texto sin contar las secuencias ANSI) tiene como
/// mucho tantos grafemas como colores hay.
pub open spec fn paleta_alcanza(s: Seq<char>, paleta: Seq<[u8; 3]>) -> bool {
    forall|k: int|
        0 <= k < partes(s).len() && sin_ansi(partes(s)[k]).len() > 0 ==> grafemas_de(
            sin_ansi(#[trigger] partes(s)[k]),
        ).len() <= paleta.len()
}

fn mismo_color(a: [u8; 3], b: [u8; 3]) -> (r: bool)
    ensures
        r == (a == b),
{
    let r = a[0] == b[0] && a[1] == b[1] && a[2] == b[2];
    proof {
        if r {
            assert(a =~= b);
        }
    }
    r
}

#[verifier::spinoff_prover]
#[verifier::rlimit(40)]
pub(crate) fn pintar_linea(v: &mut Vec<char>, gs: &Vec<Vec<char>>, paleta: &[[u8; 3]])
    requires
        vista(gs@).len() <= paleta@.len(),
    ensures
        final(v)@ == old(v)@ + pintar(vista(gs@), paleta@, 0, None),
{
    let ghost g = vista(gs@);
    let mut previo: Option<[u8; 3]> = None;
    let mut k: usize = 0;
    while k < gs.len()
        invariant
            k <= gs@.len(),
            g == vista(gs@),
            g.len() <= paleta@.len(),
            v@ + pintar(g, paleta@, k as int, previo) == old(v)@ + pintar(g, paleta@, 0, None),
        decreases gs.len() - k,
    {
        let c = paleta[k];
        let gk = &gs[k];
        assert(g[k as int] == gk@);
        let es_espacio_simple = gk.len() == 1 && gk[0] == ' ';
        assert(es_espacio_simple == (g[k as int] =~= seq![' ']));
        let cambia = !es_espacio_simple && match previo {
            None => true,
            Some(p) => !mismo_color(p, c),
        };
        let ghost antes = v@;
        if cambia {
            v.push('\x1b');
            v.push('[');
            v.push('3');
            v.push('8');
            v.push(';');
            v.push('2');
            v.push(';');
            decimal_exec(v, c[0]);
            v.push(';');
            decimal_exec(v, c[1]);
            v.push(';');
            decimal_exec(v, c[2]);
            v.push('m');
            assert(v@ =~= antes + cambio_color(c));
            previo = Some(c);
        }
        let ghost medio = v@;
        let mut j: usize = 0;
        while j < gk.len()
            invariant
                j <= gk@.len(),
                v@ == medio + gk@.take(j as int),
            decreases gk.len() - j,
        {
            v.push(gk[j]);
            j = j + 1;
            assert(v@ =~= medio + gk@.take(j as int));
        }
        assert(gk@.take(gk@.len() as int) =~= gk@);
        k = k + 1;
    }
    if previo.is_some() {
        v.push('\x1b');
        v.push('[');
        v.push('0');
        v.push('m');
    }
    assert(v@ =~= old(v)@ + pintar(g, paleta@, 0, None));
}

/// Pinta un fotograma para la terminal (ANSI truecolor): el grafema de la
/// columna `c` de cada línea va con el color `paleta[c]`, los cambios de
/// color solo se escriben cuando hacen falta y cada línea pintada termina
/// restableciendo el color. Sin colores, el fotograma queda igual.
pub fn colorear(fotograma: &str, paleta: &[[u8; 3]]) -> (s: String)
    requires
        paleta@.len() == 0 || paleta_alcanza(fotograma@, paleta@),
    ensures
        s@ == coloreado(fotograma@, paleta@),
{
    let cs = caracteres(fotograma);
    if paleta.len() == 0 {
        return cadena(cs.as_slice());
    }
    let lineas = partir(&cs);
    let ghost ps = partes(fotograma@);
    let ghost pintadas = ps.map_values(
        |l: Seq<char>| pintar(grafemas_de(sin_ansi(l)), paleta@, 0, None),
    );
    proof {
        lema_partes_no_vacio(fotograma@);
    }
    let mut v: Vec<char> = Vec::new();
    let mut j: usize = 0;
    while j < lineas.len()
        invariant
            j <= lineas@.len(),
            vista(lineas@) == ps,
            ps.len() >= 1,
            ps == partes(fotograma@),
            paleta_alcanza(fotograma@, paleta@),
            pintadas == ps.map_values(
                |l: Seq<char>| pintar(grafemas_de(sin_ansi(l)), paleta@, 0, None),
            ),
            v@ == unir(pintadas.take(j as int)),
        decreases lineas.len() - j,
    {
        assert(ps[j as int] == lineas@[j as int]@);
        let limpia = quitar_ansi_linea(&lineas[j]);
        let gs = grafemas(limpia.as_slice());
        proof {
            if limpia@.len() == 0 {
                lema_sin_trozos(vista(gs@));
            }
        }
        assert(grafemas_de(sin_ansi(ps[j as int])).len() <= paleta@.len());
        if j > 0 {
            v.push('\n');
        }
        let ghost antes = v@;
        pintar_linea(&mut v, &gs, paleta);
        proof {
            let t = pintadas.take(j + 1);
            assert(t.drop_last() =~= pintadas.take(j as int));
            assert(t.last() == pintar(grafemas_de(sin_ansi(ps[j as int])), paleta@, 0, None));
            if j == 0 {
                assert(v@ =~= unir(t));
            } else {
                assert(v@ =~= unir(t.drop_last()) + seq!['\n'] + t.last());
            }
        }
        j = j + 1;
    }
    assert(pintadas.take(lineas@.len() as int) =~= pintadas);
    cadena(v.as_slice())
}

/// Cuántos grafemas tiene cada línea (los trozos entre saltos de línea).
pub fn grafemas_por_linea(texto: &str) -> (r: Vec<usize>)
    ensures
        r@.len() == partes(texto@).len(),
        forall|k: int| 0 <= k < r@.len() ==> #[trigger] r@[k] == grafemas_de(partes(texto@)[k]).len(),
{
    let cs = caracteres(texto);
    let lineas = partir(&cs);
    let mut r: Vec<usize> = Vec::new();
    let mut j: usize = 0;
    while j < lineas.len()
        invariant
            j <= lineas@.len(),
            vista(lineas@) == partes(texto@),
            r@.len() == j,
            forall|k: int| 0 <= k < j ==> #[trigger] r@[k] == grafemas_de(partes(texto@)[k]).len(),
        decreases lineas.len() - j,
    {
        assert(partes(texto@)[j as int] == lineas@[j as int]@);
        let gs = grafemas(lineas[j].as_slice());
        r.push(gs.len());
        j = j + 1;
    }
    r
}

/// El mayor de unos números (0 si no hay ninguno).
pub open spec fn mayor(s: Seq<nat>) -> nat
    decreases s.len(),
{
    if s.len() == 0 {
        0
    } else if mayor(s.drop_last()) >= s.last() {
        mayor(s.drop_last())
    } else {
        s.last()
    }
}

/// Una línea sin el `'\r'` final, si lo tiene.
pub open spec fn sin_retorno(l: Seq<char>) -> Seq<char> {
    if l.len() > 0 && l.last() == '\r' {
        l.drop_last()
    } else {
        l
    }
}

/// Las líneas de `s` como las da `str::lines`: los trozos entre saltos de
/// línea, sin el último si está vacío, y sin el `'\r'` que preceda a un
/// salto.
pub open spec fn renglones(s: Seq<char>) -> Seq<Seq<char>> {
    let ps = partes(s);
    let cuerpo = ps.drop_last().map_values(|l: Seq<char>| sin_retorno(l));
    if ps.last().len() == 0 {
        cuerpo
    } else {
        cuerpo.push(ps.last())
    }
}

/// Columnas del degradado de un fotograma: los grafemas de su línea más
/// larga, y al menos 2.
pub open spec fn ancho_degradado_de(s: Seq<char>) -> nat {
    let m = mayor(renglones(s).map_values(|l: Seq<char>| grafemas_de(l).len()));
    if m >= 2 {
        m
    } else {
        2
    }
}

/// Columnas del degradado horizontal con que se pinta un fotograma: la
/// columna `c` lleva el color que está en la posición `c / (ancho - 1)` del
/// degradado.
pub fn ancho_degradado(fotograma: &str) -> (n: usize)
    ensures
        n == ancho_degradado_de(fotograma@),
{
    let cs = caracteres(fotograma);
    let lineas = partir(&cs);
    let ghost ps = partes(fotograma@);
    let ghost rs = renglones(fotograma@);
    let ghost cuentas = rs.map_values(|l: Seq<char>| grafemas_de(l).len());
    proof {
        lema_partes_no_vacio(fotograma@);
    }
    let total = lineas.len();
    let ultima_vacia = lineas[total - 1].len() == 0;
    let tope = if ultima_vacia {
        total - 1
    } else {
        total
    };
    assert(rs.len() == tope);
    let mut m: usize = 0;
    let mut j: usize = 0;
    while j < tope
        invariant
            j <= tope,
            tope <= total,
            total == lineas@.len(),
            vista(lineas@) == ps,
            ps == partes(fotograma@),
            rs == renglones(fotograma@),
            rs.len() == tope,
            cuentas == rs.map_values(|l: Seq<char>| grafemas_de(l).len()),
            m == mayor(cuentas.take(j as int)),
        decreases tope - j,
    {
        let linea = &lineas[j];
        let mut fin = linea.len();
        if j + 1 < total && fin > 0 && linea[fin - 1] == '\r' {
            fin = fin - 1;
        }
        let mut l: Vec<char> = Vec::new();
        let mut i: usize = 0;
        while i < fin
            invariant
                i <= fin <= linea@.len(),
                l@ == linea@.take(i as int),
            decreases fin - i,
        {
            l.push(linea[i]);
            i = i + 1;
            assert(l@ =~= linea@.take(i as int));
        }
        proof {
            assert(ps[j as int] == linea@);
            if j + 1 < total {
                assert(rs[j as int] == sin_retorno(ps[j as int]));
                assert(l@ =~= sin_retorno(linea@));
            } else {
                assert(rs[j as int] == ps.last());
                assert(l@ =~= linea@);
            }
        }
        let gs = grafemas(l.as_slice());
        let n = gs.len();
        proof {
            assert(cuentas.take(j + 1).drop_last() =~= cuentas.take(j as int));
            assert(cuentas[j as int] == n);
        }
        if n > m {
            m = n;
        }
        j = j + 1;
    }
    assert(cuentas.take(tope as int) =~= cuentas);
    if m >= 2 {
        m
    } else {
        2
    }
}

/// Líneas del fotograma más alto (1 si no hay fotogramas).
pub open spec fn filas_de(fotogramas: Seq<Seq<char>>) -> nat {
    let m = mayor(fotogramas.map_values(|f: Seq<char>| partes(f).len()));
    if fotogramas.len() == 0 {
        1
    } else {
        m
    }
}

/// Líneas del fotograma más alto (1 si no hay fotogramas): todos se
/// dibujan con esa altura para poder volver siempre a la misma fila.
pub fn filas_fotogramas(fotogramas: &[String]) -> (n: usize)
    ensures
        n == filas_de(fotogramas@.map_values(|f: String| f@)),
{
    let ghost fs = fotogramas@.map_values(|f: String| f@);
    let ghost cuentas = fs.map_values(|f: Seq<char>| partes(f).len());
    let mut m: usize = 0;
    let mut j: usize = 0;
    while j < fotogramas.len()
        invariant
            j <= fotogramas@.len(),
            fs == fotogramas@.map_values(|f: String| f@),
            cuentas == fs.map_values(|f: Seq<char>| partes(f).len()),
            m == mayor(cuentas.take(j as int)),
        decreases fotogramas.len() - j,
    {
        assert(cuentas.take(j + 1).drop_last() =~= cuentas.take(j as int));
        let cs = caracteres(fotogramas[j].as_str());
        let ls = partir(&cs);
        assert(cuentas[j as int] == partes(fotogramas@[j as int]@).len());
        if ls.len() > m {
            m = ls.len();
        }
        j = j + 1;
    }
    assert(cuentas.take(fotogramas@.len() as int) =~= cuentas);
    if fotogramas.len() == 0 {
        1
    } else {
        m
    }
}

/// Cada salto de línea precedido de la orden ANSI de borrar el resto de la
/// línea.
pub open spec fn con_borrado(s: Seq<char>) -> Seq<char>
    decreases s.len(),
{
    if s.len() == 0 {
        seq![]
    } else {
        con_borrado(s.drop_last()) + if s.last() == '\n' {
            seq!['\x1b', '[', 'K', '\n']
        } else {
            seq![s.last()]
        }
    }
}

/// `k` saltos de línea.
pub open spec fn saltos(k: nat) -> Seq<char> {
    Seq::new(k, |i: int| '\n')
}

/// Un fotograma listo para la terminal: completado con líneas vacías hasta
/// `filas`, pintado con la paleta y con cada línea borrando lo que quede a
/// su derecha del fotograma anterior.
pub open spec fn preparado(f: Seq<char>, filas: nat, paleta: Seq<[u8; 3]>) -> Seq<char> {
    con_borrado(coloreado(f + saltos((filas - partes(f).len()) as nat), paleta)) + seq![
        '\x1b',
        '[',
        'K',
    ]
}

proof fn lema_partes_saltos(f: Seq<char>, k: nat)
    ensures
        partes(f + saltos(k)) == partes(f) + Seq::new(k, |i: int| Seq::<char>::empty()),
    decreases k,
{
    if k == 0 {
        assert(f + saltos(0) =~= f);
        assert(partes(f) + Seq::new(0, |i: int| Seq::<char>::empty()) =~= partes(f));
    } else {
        lema_partes_saltos(f, (k - 1) as nat);
        assert((f + saltos(k)).drop_last() =~= f + saltos((k - 1) as nat));
        assert((f + saltos(k)).last() == '\n');
        assert(partes(f) + Seq::new(k, |i: int| Seq::<char>::empty()) =~= (partes(f) + Seq::new(
            (k - 1) as nat,
            |i: int| Seq::<char>::empty(),
        )).push(Seq::empty()));
    }
}

/// Prepara un fotograma para reproducirlo en la terminal (ver `preparado`).
pub fn preparar_fotograma(f: &str, filas: usize, paleta: &[[u8; 3]]) -> (s: String)
    requires
        partes(f@).len() <= filas,
        paleta@.len() == 0 || paleta_alcanza(f@, paleta@),
    ensures
        s@ == preparado(f@, filas as nat, paleta@),
{
    let cs = caracteres(f);
    let ls = partir(&cs);
    let faltan = filas - ls.len();
    let mut t = cs;
    let mut k: usize = 0;
    while k < faltan
        invariant
            k <= faltan,
            t@ == f@ + saltos(k as nat),
        decreases faltan - k,
    {
        t.push('\n');
        k = k + 1;
        assert(t@ =~= f@ + saltos(k as nat));
    }
    proof {
        lema_partes_saltos(f@, faltan as nat);
        assert(t@ == f@ + saltos(faltan as nat));
        let ps = partes(t@);
        if paleta@.len() > 0 {
            assert forall|j: int| 0 <= j < ps.len() && sin_ansi(ps[j]).len() > 0 implies grafemas_de(
                sin_ansi(#[trigger] ps[j]),
            ).len() <= paleta@.len() by {
                if j < partes(f@).len() {
                    assert(ps[j] == partes(f@)[j]);
                } else {
                    assert(ps[j] == Seq::<char>::empty());
                    assert(sin_ansi(ps[j]).len() == 0);
                }
            }
        }
    }
    let texto = cadena(t.as_slice());
    let pintado = colorear(texto.as_str(), paleta);
    let pc = caracteres(pintado.as_str());
    let mut v: Vec<char> = Vec::new();
    let mut i: usize = 0;
    while i < pc.len()
        invariant
            i <= pc@.len(),
            v@ == con_borrado(pc@.take(i as int)),
        decreases pc.len() - i,
    {
        assert(pc@.take(i + 1).drop_last() =~= pc@.take(i as int));
        if pc[i] == '\n' {
            v.push('\x1b');
            v.push('[');
            v.push('K');
            v.push('\n');
        } else {
            v.push(pc[i]);
        }
        i = i + 1;
        assert(v@ =~= con_borrado(pc@.take(i as int)));
    }
    assert(pc@.take(pc@.len() as int) =~= pc@);
    v.push('\x1b');
    v.push('[');
    v.push('K');
    cadena(v.as_slice())
}

/// Trozos no vacíos que unidos no dan nada: no hay ninguno.
proof fn lema_sin_trozos(g: Seq<Seq<char>>)
    requires
        g.flatten().len() == 0,
        forall|k: int| 0 <= k < g.len() ==> (#[trigger] g[k]).len() > 0,
    ensures
        g.len() == 0,
{
    if g.len() > 0 {
        assert(g.first().len() > 0);
        assert(g.flatten() == g.first() + g.drop_first().flatten());
    }
}

/// La orden ANSI que lleva el cursor al principio del fotograma que se acaba
/// de dibujar: al principio de la línea y `filas - 1` líneas arriba.
pub open spec fn subida(filas: nat) -> Seq<char> {
    if filas > 1 {
        seq!['\r', '\x1b', '['] + crate::formato::decimal_de((filas - 1) as nat) + seq!['A']
    } else {
        seq!['\r']
    }
}

/// Cada cifra hexadecimal vale su posición, es ASCII y no es espacio ni
/// signo.
proof fn lema_cifra(n: int)
    requires
        0 <= n < 16,
    ensures
        valor_hex(cifra(n)) == Some(n as u8),
        !es_espacio(cifra(n)),
{
    if n == 0 {
        assert(cifra(0) == '0');
    } else if n == 1 {
        assert(cifra(1) == '1');
    } else if n == 2 {
        assert(cifra(2) == '2');
    } else if n == 3 {
        assert(cifra(3) == '3');
    } else if n == 4 {
        assert(cifra(4) == '4');
    } else if n == 5 {
        assert(cifra(5) == '5');
    } else if n == 6 {
        assert(cifra(6) == '6');
    } else if n == 7 {
        assert(cifra(7) == '7');
    } else if n == 8 {
        assert(cifra(8) == '8');
    } else if n == 9 {
        assert(cifra(9) == '9');
    } else if n == 10 {
        assert(cifra(10) == 'a');
    } else if n == 11 {
        assert(cifra(11) == 'b');
    } else if n == 12 {
        assert(cifra(12) == 'c');
    } else if n == 13 {
        assert(cifra(13) == 'd');
    } else if n == 14 {
        assert(cifra(14) == 'e');
    } else {
        assert(cifra(15) == 'f');
    }
}

/// Leer un color da sus canales aunque lleve espacios en blanco alrededor
/// y cifras en mayúscula: `a` y `b` son espacios y `h` son seis cifras que
/// escriben los canales de `c`.
pub proof fn ley_color_hex(a: Seq<char>, h: Seq<char>, b: Seq<char>, c: [u8; 3])
    requires
        forall|i: int| 0 <= i < a.len() ==> es_espacio(#[trigger] a[i]),
        forall|i: int| 0 <= i < b.len() ==> es_espacio(#[trigger] b[i]),
        h.len() == 6,
        todo_hex(h),
        canal(h[0], h[1]) == c@[0],
        canal(h[2], h[3]) == c@[1],
        canal(h[4], h[5]) == c@[2],
    ensures
        color_de(a + seq!['#'] + h + b) == Some(c@),
{
    let t = seq!['#'] + h;
    assert(valor_hex(h[5]) is Some);
    assert(t.last() == h[5]);
    assert(a + seq!['#'] + h + b =~= a + t + b);
    lema_recortado(a, t, b);
    assert(t.drop_first() =~= h);
    assert(seq![canal(h[0], h[1]), canal(h[2], h[3]), canal(h[4], h[5])] =~= c@);
}

/// Recortar los espacios de alrededor de un texto que ni empieza ni
/// termina en espacio lo deja tal cual.
proof fn lema_recortado(a: Seq<char>, t: Seq<char>, b: Seq<char>)
    requires
        forall|i: int| 0 <= i < a.len() ==> es_espacio(#[trigger] a[i]),
        forall|i: int| 0 <= i < b.len() ==> es_espacio(#[trigger] b[i]),
        t.len() > 0,
        !es_espacio(t[0]),
        !es_espacio(t.last()),
    ensures
        recortado(a + t + b) == t,
{
    let s = a + t + b;
    lema_sin_inicial(s, a.len() as int);
    let u = s.subrange(a.len() as int, s.len() as int);
    assert(u =~= t + b);
    assert(u[0] == t[0]);
    assert(sin_espacio_inicial(u) == u);
    assert forall|k: int| t.len() <= k < u.len() implies es_espacio(#[trigger] u[k]) by {
        assert(u[k] == b[k - t.len()]);
    }
    lema_sin_final(u, t.len() as int);
    assert(u.subrange(0, t.len() as int) =~= t);
    assert(t.last() == t[t.len() - 1]);
    assert(sin_espacio_final(t) == t);
}

/// Leer un color escrito con `hex` da el mismo color.
pub proof fn ley_hex_color(c: [u8; 3])
    ensures
        color_de(hex_de(c)) == Some(c@),
{
    let s = hex_de(c);
    let b0 = c@[0];
    let b1 = c@[1];
    let b2 = c@[2];
    lema_cifra((b0 / 16) as int);
    lema_cifra((b0 % 16) as int);
    lema_cifra((b1 / 16) as int);
    lema_cifra((b1 % 16) as int);
    lema_cifra((b2 / 16) as int);
    lema_cifra((b2 % 16) as int);
    let h = dos_cifras(b0) + dos_cifras(b1) + dos_cifras(b2);
    assert(s =~= Seq::<char>::empty() + seq!['#'] + h + Seq::<char>::empty());
    assert(todo_hex(h)) by {
        assert forall|i: int| 0 <= i < h.len() implies valor_hex(#[trigger] h[i]) is Some by {
            if i < 2 {
            } else if i < 4 {
            } else {
            }
        }
    }
    ley_color_hex(Seq::<char>::empty(), h, Seq::<char>::empty(), c);
}

/// Un texto escapado no tiene `<` ni `>`: no puede abrir ni cerrar
/// etiquetas.
pub proof fn ley_escapado_sin_etiquetas(s: Seq<char>)
    ensures
        !escapado(s).contains('<'),
        !escapado(s).contains('>'),
    decreases s.len(),
{
    if s.len() > 0 {
        ley_escapado_sin_etiquetas(s.drop_last());
        let a = escapado(s.drop_last());
        let b = escapado_de(s.last());
        assert(!b.contains('<') && !b.contains('>'));
        assert forall|i: int| 0 <= i < (a + b).len() implies (a + b)[i] != '<' && (a + b)[i] != '>' by {
            if i < a.len() {
                assert((a + b)[i] == a[i]);
            } else {
                assert((a + b)[i] == b[i - a.len()]);
            }
        }
    }
}

/// Ley del bucle calculado: sin fotogramas pedidos y con un paso positivo,
/// lata o no la figura, se calculan fotogramas (entre 1 y `FOTOGRAMAS_MAX`)
/// hasta que el texto da vueltas enteras: tras `n` pasos ha avanzado un
/// múltiplo del ciclo (salvo que se llegue al tope) y tras ningún número
/// menor de pasos lo ha hecho, así que el bucle no tiene salto.
pub proof fn ley_fotogramas_sin_salto(paso: usize, late: bool, ciclo: nat)
    requires
        paso > 0,
        ciclo > 0,
    ensures
        ({
            let n = num_fotogramas(None, paso, late, ciclo);
            &&& 0 < n <= FOTOGRAMAS_MAX
            &&& (n * paso) % (ciclo as int) == 0 || n == FOTOGRAMAS_MAX
            &&& forall|k: int| 0 < k < n ==> #[trigger] ((k * paso) % (ciclo as int)) != 0
        }),
{
    ley_bucle_sin_costura(ciclo, paso as nat);
}

/// El mayor de una secuencia es cota de todos y, si hay alguno, es uno de
/// ellos.
proof fn lema_mayor(s: Seq<nat>)
    ensures
        forall|i: int| 0 <= i < s.len() ==> #[trigger] s[i] <= mayor(s),
        s.len() > 0 ==> exists|i: int| 0 <= i < s.len() && s[i] == mayor(s),
        s.len() == 0 ==> mayor(s) == 0,
    decreases s.len(),
{
    if s.len() > 0 {
        let d = s.drop_last();
        lema_mayor(d);
        assert forall|i: int| 0 <= i < s.len() implies #[trigger] s[i] <= mayor(s) by {
            if i < s.len() - 1 {
                assert(s[i] == d[i]);
            }
        }
        if mayor(d) >= s.last() && d.len() > 0 {
            let i = choose|i: int| 0 <= i < d.len() && d[i] == mayor(d);
            assert(s[i] == d[i]);
        } else {
            assert(s[s.len() - 1] == mayor(s));
        }
    }
}

/// Ley del ancho del degradado: al menos 2 y al menos los grafemas de cada
/// línea del fotograma, y es 2 o los de alguna línea (la más larga), así
/// que el degradado se extiende sobre toda la figura.
pub proof fn ley_ancho_degradado(s: Seq<char>)
    ensures
        ancho_degradado_de(s) >= 2,
        forall|k: int|
            0 <= k < renglones(s).len() ==> grafemas_de(#[trigger] renglones(s)[k]).len()
                <= ancho_degradado_de(s),
        ancho_degradado_de(s) == 2 || exists|k: int|
            0 <= k < renglones(s).len() && grafemas_de(#[trigger] renglones(s)[k]).len()
                == ancho_degradado_de(s),
{
    let c = renglones(s).map_values(|l: Seq<char>| grafemas_de(l).len());
    lema_mayor(c);
    assert forall|k: int| 0 <= k < renglones(s).len() implies grafemas_de(
        #[trigger] renglones(s)[k],
    ).len() <= ancho_degradado_de(s) by {
        assert(c[k] == grafemas_de(renglones(s)[k]).len());
    }
    if ancho_degradado_de(s) != 2 {
        let i = choose|i: int| 0 <= i < c.len() && c[i] == mayor(c);
        assert(c[i] == grafemas_de(renglones(s)[i]).len());
    }
}

} // verus!
