//! Lectura de opciones escritas como texto: números enteros, el modo de
//! espacios y el ancho.

use vstd::prelude::*;

use crate::composicion::cuantos;
use crate::texto::caracteres;
use crate::{Ancho, Error, Espacios};

verus! {

/// Valor de una cifra decimal.
pub open spec fn valor_cifra(c: char) -> int {
    c as u32 - 48
}

/// Un carácter `'0'..='9'`.
pub open spec fn es_cifra(c: char) -> bool {
    48 <= c as u32 <= 57
}

/// El número que escriben unas cifras decimales.
pub open spec fn numero_de(d: Seq<char>) -> nat
    decreases d.len(),
{
    if d.len() == 0 {
        0
    } else {
        (10 * numero_de(d.drop_last()) + valor_cifra(d.last())) as nat
    }
}

/// Las cifras de un entero sin signo escrito como texto: todo salvo un `+`
/// inicial.
pub open spec fn cifras(s: Seq<char>) -> Seq<char> {
    if s.len() >= 1 && s[0] == '+' {
        s.drop_first()
    } else {
        s
    }
}

/// El entero sin signo que escribe `s` como lo lee `str::parse`: un `+`
/// opcional y al menos una cifra, nada más.
pub open spec fn entero_de(s: Seq<char>) -> Option<nat> {
    let d = cifras(s);
    if d.len() > 0 && forall|i: int| 0 <= i < d.len() ==> es_cifra(#[trigger] d[i]) {
        Some(numero_de(d))
    } else {
        None
    }
}

proof fn lema_numero_crece(d: Seq<char>, i: int)
    requires
        0 <= i <= d.len(),
        forall|j: int| 0 <= j < d.len() ==> es_cifra(#[trigger] d[j]),
    ensures
        numero_de(d.take(i)) <= numero_de(d),
    decreases d.len() - i,
{
    if i < d.len() {
        lema_numero_crece(d, i + 1);
        assert(d.take(i + 1).drop_last() =~= d.take(i));
        assert(es_cifra(d[i]));
    } else {
        assert(d.take(i) =~= d);
    }
}

/// El entero que escribe `s`, si es uno y cabe en `usize` (`str::parse`).
pub fn leer_usize(s: &Vec<char>) -> (r: Option<usize>)
    ensures
        r matches Some(n) ==> entero_de(s@) == Some(n as nat),
        r is None ==> match entero_de(s@) {
            Some(n) => n > usize::MAX,
            None => true,
        },
{
    let ghost d = cifras(s@);
    let inicio: usize = if s.len() >= 1 && s[0] == '+' {
        1
    } else {
        0
    };
    assert(d =~= s@.subrange(inicio as int, s@.len() as int));
    if inicio == s.len() {
        return None;
    }
    let mut n: usize = 0;
    let mut i = inicio;
    while i < s.len()
        invariant
            inicio <= i <= s@.len(),
            inicio < s@.len(),
            d == s@.subrange(inicio as int, s@.len() as int),
            d == cifras(s@),
            forall|j: int| 0 <= j < i - inicio ==> es_cifra(#[trigger] d[j]),
            n == numero_de(d.take(i - inicio)),
        decreases s.len() - i,
    {
        let c = s[i];
        assert(d[i - inicio] == c);
        let u = c as u32;
        if u < 48 || u > 57 {
            assert(!es_cifra(d[i - inicio]));
            return None;
        }
        assert(d.take(i - inicio + 1).drop_last() =~= d.take(i - inicio));
        let cifra = (u - 48) as usize;
        match n.checked_mul(10) {
            None => {
                proof {
                    lema_sin_cifras_malas(s@, d, inicio as int, i as int);
                }
                return None;
            },
            Some(m) => match m.checked_add(cifra) {
                None => {
                    proof {
                        lema_sin_cifras_malas(s@, d, inicio as int, i as int);
                    }
                    return None;
                },
                Some(k) => {
                    n = k;
                },
            },
        }
        i = i + 1;
    }
    assert(d.take(s@.len() - inicio) =~= d);
    Some(n)
}

/// Si al leer la cifra `i` el número ya no cabe, o bien alguna cifra
/// posterior no lo es, o el número entero tampoco cabe.
proof fn lema_sin_cifras_malas(s: Seq<char>, d: Seq<char>, inicio: int, i: int)
    requires
        0 <= inicio <= i < s.len(),
        d == s.subrange(inicio, s.len() as int),
        forall|j: int| 0 <= j <= i - inicio ==> es_cifra(#[trigger] d[j]),
        numero_de(d.take(i - inicio + 1)) > usize::MAX,
        d == cifras(s),
    ensures
        match entero_de(s) {
            Some(n) => n > usize::MAX,
            None => true,
        },
{
    if d.len() > 0 && forall|j: int| 0 <= j < d.len() ==> es_cifra(#[trigger] d[j]) {
        lema_numero_crece(d, i - inicio + 1);
    }
}

/// `s` con las letras ASCII en minúscula (`to_ascii_lowercase`).
pub open spec fn minusculas(s: Seq<char>) -> Seq<char> {
    s.map_values(
        |c: char|
            if 65 <= c as u32 <= 90 {
                (c as u32 + 32) as char
            } else {
                c
            },
    )
}

fn minuscula(c: char) -> (r: char)
    ensures
        r == (if 65 <= c as u32 <= 90 {
            (c as u32 + 32) as char
        } else {
            c
        }),
{
    if 'A' <= c && c <= 'Z' {
        match c {
            'A' => 'a',
            'B' => 'b',
            'C' => 'c',
            'D' => 'd',
            'E' => 'e',
            'F' => 'f',
            'G' => 'g',
            'H' => 'h',
            'I' => 'i',
            'J' => 'j',
            'K' => 'k',
            'L' => 'l',
            'M' => 'm',
            'N' => 'n',
            'O' => 'o',
            'P' => 'p',
            'Q' => 'q',
            'R' => 'r',
            'S' => 's',
            'T' => 't',
            'U' => 'u',
            'V' => 'v',
            'W' => 'w',
            'X' => 'x',
            'Y' => 'y',
            _ => 'z',
        }
    } else {
        c
    }
}

pub(crate) fn en_minusculas(s: &Vec<char>) -> (r: Vec<char>)
    ensures
        r@ == minusculas(s@),
{
    let mut r: Vec<char> = Vec::new();
    let mut i: usize = 0;
    while i < s.len()
        invariant
            i <= s@.len(),
            r@ == minusculas(s@).take(i as int),
        decreases s.len() - i,
    {
        r.push(minuscula(s[i]));
        i = i + 1;
        assert(r@ =~= minusculas(s@).take(i as int));
    }
    assert(minusculas(s@).take(s@.len() as int) =~= minusculas(s@));
    r
}

pub(crate) fn es_palabra(s: &Vec<char>, p: &[char]) -> (b: bool)
    ensures
        b == (s@ == p@),
{
    if s.len() != p.len() {
        return false;
    }
    let mut i: usize = 0;
    while i < s.len()
        invariant
            i <= s@.len(),
            s@.len() == p@.len(),
            forall|j: int| 0 <= j < i ==> s@[j] == p@[j],
        decreases s.len() - i,
    {
        if s[i] != p[i] {
            return false;
        }
        i = i + 1;
    }
    assert(s@ =~= p@);
    true
}

/// Lo que dice un modo de espacios desconocido.
pub const MAL_ESPACIOS: &'static str = "espacios debe ser \"normal\", \"sin\" o \"todos\"";

/// Lo que dice un ancho que no es un entero ni `auto`.
pub const MAL_ANCHO: &'static str = "ancho debe ser un entero o \"auto\"";

/// El modo de espacios que dice el texto `s`, sin distinguir mayúsculas
/// ASCII: `normal`, `sin` o `todos`; cualquier otro es una opción inválida.
pub open spec fn espacios_leidos(s: Seq<char>) -> Result<Espacios, Error> {
    if minusculas(s) == seq!['n', 'o', 'r', 'm', 'a', 'l'] {
        Ok(Espacios::Normal)
    } else if minusculas(s) == seq!['s', 'i', 'n'] {
        Ok(Espacios::Sin)
    } else if minusculas(s) == seq!['t', 'o', 'd', 'o', 's'] {
        Ok(Espacios::Todos)
    } else {
        Err(Error::OpcionInvalida(MAL_ESPACIOS))
    }
}

/// El ancho que dice el texto `s`: `auto` sin distinguir mayúsculas ASCII,
/// o un entero que quepa en `usize`; cualquier otro es una opción inválida.
pub open spec fn ancho_leido(s: Seq<char>) -> Result<Ancho, Error> {
    if minusculas(s) == seq!['a', 'u', 't', 'o'] {
        Ok(Ancho::Auto)
    } else {
        match entero_de(s) {
            Some(n) => if n <= usize::MAX {
                Ok(Ancho::Fijo(n as usize))
            } else {
                Err(Error::OpcionInvalida(MAL_ANCHO))
            },
            None => Err(Error::OpcionInvalida(MAL_ANCHO)),
        }
    }
}

impl Espacios {
    /// El modo de espacios escrito `s` (sin distinguir mayúsculas ASCII):
    /// `normal`, `sin` o `todos`.
    pub fn leer(s: &str) -> (r: Result<Espacios, Error>)
        ensures
            r == espacios_leidos(s@),
    {
        let cs = caracteres(s);
        let m = en_minusculas(&cs);
        let normal = ['n', 'o', 'r', 'm', 'a', 'l'];
        let sin = ['s', 'i', 'n'];
        let todos = ['t', 'o', 'd', 'o', 's'];
        assert(normal@ =~= seq!['n', 'o', 'r', 'm', 'a', 'l']);
        assert(sin@ =~= seq!['s', 'i', 'n']);
        assert(todos@ =~= seq!['t', 'o', 'd', 'o', 's']);
        if es_palabra(&m, &normal) {
            Ok(Espacios::Normal)
        } else if es_palabra(&m, &sin) {
            Ok(Espacios::Sin)
        } else if es_palabra(&m, &todos) {
            Ok(Espacios::Todos)
        } else {
            Err(Error::OpcionInvalida(MAL_ESPACIOS))
        }
    }
}

impl std::str::FromStr for Espacios {
    type Err = Error;

    fn from_str(s: &str) -> (r: Result<Espacios, Error>)
        ensures
            r == espacios_leidos(s@),
    {
        Espacios::leer(s)
    }
}

impl Ancho {
    /// El ancho escrito `s`: `auto` (sin distinguir mayúsculas ASCII) o un
    /// entero.
    pub fn leer(s: &str) -> (r: Result<Ancho, Error>)
        ensures
            r == ancho_leido(s@),
    {
        let cs = caracteres(s);
        let m = en_minusculas(&cs);
        let auto = ['a', 'u', 't', 'o'];
        assert(auto@ =~= seq!['a', 'u', 't', 'o']);
        if es_palabra(&m, &auto) {
            return Ok(Ancho::Auto);
        }
        match leer_usize(&cs) {
            Some(n) => Ok(Ancho::Fijo(n)),
            None => Err(Error::OpcionInvalida(MAL_ANCHO)),
        }
    }
}

impl std::str::FromStr for Ancho {
    type Err = Error;

    fn from_str(s: &str) -> (r: Result<Ancho, Error>)
        ensures
            r == ancho_leido(s@),
    {
        Ancho::leer(s)
    }
}

/// Cifras con a lo sumo un punto y al menos una cifra: `1`, `1.`, `.5`,
/// `1.5`.
pub open spec fn mantisa(m: Seq<char>) -> bool {
    &&& forall|i: int| 0 <= i < m.len() ==> es_cifra(#[trigger] m[i]) || m[i] == '.'
    &&& cuantos(m, '.') <= 1
    &&& exists|i: int| 0 <= i < m.len() && es_cifra(#[trigger] m[i])
}

/// `x` sin su signo inicial, si lo tiene.
pub open spec fn sin_signo(x: Seq<char>) -> Seq<char> {
    if x.len() > 0 && (x[0] == '+' || x[0] == '-') {
        x.drop_first()
    } else {
        x
    }
}

/// Todo cifras.
pub open spec fn solo_cifras(d: Seq<char>) -> bool {
    forall|i: int| 0 <= i < d.len() ==> es_cifra(#[trigger] d[i])
}

/// Un signo opcional y al menos una cifra.
pub open spec fn exponente(x: Seq<char>) -> bool {
    sin_signo(x).len() > 0 && solo_cifras(sin_signo(x))
}

/// Una mantisa, con o sin `e` y exponente detrás.
pub open spec fn numero_real(u: Seq<char>) -> bool {
    ||| mantisa(u)
    ||| exists|p: int|
        0 <= p < u.len() && #[trigger] u[p] == 'e' && mantisa(u.take(p)) && exponente(u.skip(p + 1))
}

/// Lo que acepta `str::parse` para un número real (`f32` o `f64`): en
/// minúsculas, un signo opcional y `inf`, `infinity`, `nan` o un número
/// decimal con exponente opcional; sin espacios.
pub open spec fn es_real(s: Seq<char>) -> bool {
    let u = sin_signo(minusculas(s));
    ||| u == seq!['i', 'n', 'f']
    ||| u == seq!['i', 'n', 'f', 'i', 'n', 'i', 't', 'y']
    ||| u == seq!['n', 'a', 'n']
    ||| numero_real(u)
}

/// ¿Es `m[a..b]` una mantisa?
fn es_mantisa(m: &Vec<char>, a: usize, b: usize) -> (r: bool)
    requires
        a <= b <= m@.len(),
    ensures
        r == mantisa(m@.subrange(a as int, b as int)),
{
    let ghost t = m@.subrange(a as int, b as int);
    let mut puntos: usize = 0;
    let mut cifra = false;
    let mut i = a;
    while i < b
        invariant
            a <= i <= b <= m@.len(),
            t == m@.subrange(a as int, b as int),
            forall|j: int| 0 <= j < i - a ==> es_cifra(#[trigger] t[j]) || t[j] == '.',
            puntos == cuantos(t.take(i - a), '.'),
            puntos <= 1,
            cifra == exists|j: int| 0 <= j < i - a && es_cifra(#[trigger] t[j]),
        decreases b - i,
    {
        let c = m[i];
        assert(t[i - a] == c);
        assert(t.take(i - a + 1).drop_last() =~= t.take(i - a));
        let u = c as u32;
        if 48 <= u && u <= 57 {
            cifra = true;
        } else if c == '.' {
            if puntos == 1 {
                proof {
                    lema_cuantos_prefijo(t, i - a + 1);
                }
                return false;
            }
            puntos = puntos + 1;
        } else {
            return false;
        }
        i = i + 1;
    }
    assert(t.take(b - a) =~= t);
    cifra
}

proof fn lema_cuantos_prefijo(s: Seq<char>, k: int)
    requires
        0 <= k <= s.len(),
    ensures
        cuantos(s.take(k), '.') <= cuantos(s, '.'),
    decreases s.len() - k,
{
    if k < s.len() {
        lema_cuantos_prefijo(s, k + 1);
        assert(s.take(k + 1).drop_last() =~= s.take(k));
    } else {
        assert(s.take(k) =~= s);
    }
}

/// ¿Es `x[a..b]` un exponente?
fn es_exponente(x: &Vec<char>, a: usize, b: usize) -> (r: bool)
    requires
        a <= b <= x@.len(),
    ensures
        r == exponente(x@.subrange(a as int, b as int)),
{
    let ghost t = x@.subrange(a as int, b as int);
    let mut i = a;
    if i < b && (x[i] == '+' || x[i] == '-') {
        assert(t[0] == x@[a as int]);
        i = i + 1;
    }
    let ghost d = x@.subrange(i as int, b as int);
    assert(d =~= sin_signo(t));
    if i == b {
        return false;
    }
    let inicio = i;
    while i < b
        invariant
            inicio <= i <= b <= x@.len(),
            d == x@.subrange(inicio as int, b as int),
            t == x@.subrange(a as int, b as int),
            d == sin_signo(t),
            forall|j: int| 0 <= j < i - inicio ==> es_cifra(#[trigger] d[j]),
        decreases b - i,
    {
        let u = x[i] as u32;
        assert(d[i - inicio] == x@[i as int]);
        if u < 48 || u > 57 {
            return false;
        }
        i = i + 1;
    }
    true
}

/// ¿Lee `str::parse` el texto `s` como un número real?
pub fn es_real_exec(s: &Vec<char>) -> (r: bool)
    ensures
        r == es_real(s@),
{
    let t = en_minusculas(s);
    let mut a: usize = 0;
    if t.len() > 0 && (t[0] == '+' || t[0] == '-') {
        a = 1;
    }
    let mut u: Vec<char> = Vec::new();
    let mut i = a;
    while i < t.len()
        invariant
            a <= i <= t@.len(),
            u@ == t@.subrange(a as int, i as int),
        decreases t.len() - i,
    {
        u.push(t[i]);
        i = i + 1;
        assert(u@ =~= t@.subrange(a as int, i as int));
    }
    proof {
        assert(u@ =~= sin_signo(t@));
    }
    let inf = ['i', 'n', 'f'];
    let infinity = ['i', 'n', 'f', 'i', 'n', 'i', 't', 'y'];
    let nan = ['n', 'a', 'n'];
    assert(inf@ =~= seq!['i', 'n', 'f']);
    assert(infinity@ =~= seq!['i', 'n', 'f', 'i', 'n', 'i', 't', 'y']);
    assert(nan@ =~= seq!['n', 'a', 'n']);
    if es_palabra(&u, &inf) || es_palabra(&u, &infinity) || es_palabra(&u, &nan) {
        return true;
    }
    let n = u.len();
    let mut p: usize = 0;
    while p < n && u[p] != 'e'
        invariant
            p <= n,
            n == u@.len(),
            forall|j: int| 0 <= j < p ==> u@[j] != 'e',
        decreases n - p,
    {
        p = p + 1;
    }
    if p == n {
        let r = es_mantisa(&u, 0, n);
        proof {
            assert(u@.subrange(0, n as int) =~= u@);
        }
        r
    } else {
        let m = es_mantisa(&u, 0, p);
        let x = es_exponente(&u, p + 1, n);
        proof {
            assert(u@.subrange(0, p as int) =~= u@.take(p as int));
            assert(u@.subrange(p + 1, n as int) =~= u@.skip(p + 1));
            assert(!mantisa(u@)) by {
                if mantisa(u@) {
                    assert(!es_cifra(u@[p as int]));
                }
            }
            if m && x {
                assert(u@[p as int] == 'e');
            }
            assert forall|q: int|
                0 <= q < u@.len() && #[trigger] u@[q] == 'e' && mantisa(u@.take(q)) && exponente(
                    u@.skip(q + 1),
                ) implies q == p by {
                if q > p {
                    assert(u@.take(q)[p as int] == 'e');
                    assert(!es_cifra(u@.take(q)[p as int]));
                }
            }
        }
        m && x
    }
}

} // verus!
