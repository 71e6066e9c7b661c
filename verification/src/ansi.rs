//! Fotogramas con color ANSI: las secuencias `ESC [ … m` que traen, el color
//! de 24 bits que deja cada una, el texto sin ellas y cada grafema con su
//! color.

use vstd::prelude::*;

use crate::animacion::{partes, partir};
use crate::composicion::{lema_unir_push, unir};
use crate::lectura::{entero_de, leer_usize};
use crate::texto::{cadena, caracteres, en_blanco, grafemas, grafemas_de, vista};

verus! {

/// Un carácter de los parámetros de una secuencia: cifra o `;`.
pub open spec fn es_param(c: char) -> bool {
    ('0' <= c && c <= '9') || c == ';'
}

/// La primera posición desde `j` que no es un parámetro (o el final).
pub open spec fn fin_params(l: Seq<char>, j: int) -> int
    decreases l.len() - j,
{
    if j < 0 || j >= l.len() || !es_param(l[j]) {
        j
    } else {
        fin_params(l, j + 1)
    }
}

/// El largo de la secuencia `ESC [ parámetros m` que empieza en `l[i]`, o 0
/// si ahí no empieza ninguna.
pub open spec fn largo_sgr(l: Seq<char>, i: int) -> int {
    if 0 <= i && i + 1 < l.len() && l[i] == '\x1b' && l[i + 1] == '[' {
        let j = fin_params(l, i + 2);
        if j < l.len() && l[j] == 'm' {
            j + 1 - i
        } else {
            0
        }
    } else {
        0
    }
}

/// `s` partido por los `;`.
pub open spec fn trozos(s: Seq<char>) -> Seq<Seq<char>>
    decreases s.len(),
{
    if s.len() == 0 {
        seq![seq![]]
    } else {
        let t = trozos(s.drop_last());
        if s.last() == ';' {
            t.push(seq![])
        } else {
            t.update(t.len() - 1, t.last().push(s.last()))
        }
    }
}

/// Un canal de color escrito en decimal (0-255).
pub open spec fn canal_sgr(t: Seq<char>) -> Option<u8> {
    match entero_de(t) {
        Some(n) => if n <= 255 {
            Some(n as u8)
        } else {
            None
        },
        None => None,
    }
}

/// El color que queda tras la secuencia de parámetros `p` si antes era
/// `color`: `0` (o nada) lo quita, `38;2;r;g;b` pone ese color de 24 bits y
/// cualquier otra lo deja como estaba.
pub open spec fn color_sgr(p: Seq<char>, color: Option<Seq<u8>>) -> Option<Seq<u8>> {
    let ts = trozos(p);
    if p.len() == 0 || p == seq!['0'] {
        None
    } else if ts.len() == 5 && ts[0] == seq!['3', '8'] && ts[1] == seq!['2'] && canal_sgr(ts[2]) is Some
        && canal_sgr(ts[3]) is Some && canal_sgr(ts[4]) is Some {
        Some(seq![canal_sgr(ts[2])->0, canal_sgr(ts[3])->0, canal_sgr(ts[4])->0])
    } else {
        color
    }
}

/// El texto de `l[i..]` sin sus secuencias.
pub open spec fn sin_ansi_desde(l: Seq<char>, i: int) -> Seq<char>
    decreases l.len() - i,
{
    if i < 0 || i >= l.len() {
        seq![]
    } else if largo_sgr(l, i) > 0 {
        sin_ansi_desde(l, i + largo_sgr(l, i))
    } else {
        seq![l[i]] + sin_ansi_desde(l, i + 1)
    }
}

/// Una línea sin sus secuencias ANSI.
pub open spec fn sin_ansi(l: Seq<char>) -> Seq<char> {
    sin_ansi_desde(l, 0)
}

/// Los grafemas de un tramo de texto sin secuencias, todos con `color`.
pub open spec fn con_color(actual: Seq<char>, color: Option<Seq<u8>>) -> Seq<(Seq<char>, Option<Seq<u8>>)> {
    if actual.len() > 0 {
        grafemas_de(actual).map_values(|g: Seq<char>| (g, color))
    } else {
        seq![]
    }
}

/// Los grafemas de `l[i..]` con su color: el texto entre dos secuencias se
/// parte en grafemas y lleva el color vigente; `actual` es el texto que se
/// lleva acumulado desde la última secuencia, con color `color`.
pub open spec fn celdas_desde(l: Seq<char>, i: int, actual: Seq<char>, color: Option<Seq<u8>>) -> Seq<
    (Seq<char>, Option<Seq<u8>>),
>
    decreases l.len() - i,
{
    if i < 0 || i >= l.len() {
        con_color(actual, color)
    } else if largo_sgr(l, i) > 0 {
        let n = largo_sgr(l, i);
        con_color(actual, color) + celdas_desde(
            l,
            i + n,
            seq![],
            color_sgr(l.subrange(i + 2, i + n - 1), color),
        )
    } else {
        celdas_desde(l, i + 1, actual.push(l[i]), color)
    }
}

/// Cada grafema de una línea con su color (`None`: sin color).
pub open spec fn celdas_linea(l: Seq<char>) -> Seq<(Seq<char>, Option<Seq<u8>>)> {
    celdas_desde(l, 0, seq![], None)
}

/// Los tramos de `cs[k..]`: grafemas seguidos que no son espacio y tienen
/// el mismo color, con su columna de inicio; `tramo` es el que se lleva a
/// medias, empezado en `inicio` y de color `color`.
pub open spec fn tramos_desde(
    cs: Seq<(Seq<char>, Option<Seq<u8>>)>,
    k: int,
    inicio: int,
    tramo: Seq<char>,
    color: Option<Seq<u8>>,
) -> Seq<(int, Seq<char>, Option<Seq<u8>>)>
    decreases cs.len() - k,
{
    if k < 0 || k >= cs.len() {
        seq![]
    } else if en_blanco(cs[k].0) {
        (if tramo.len() > 0 {
            seq![(inicio, tramo, color)]
        } else {
            seq![]
        }) + tramos_desde(cs, k + 1, inicio, seq![], color)
    } else if tramo.len() == 0 {
        tramos_desde(cs, k + 1, k, cs[k].0, cs[k].1)
    } else if cs[k].1 != color {
        seq![(inicio, tramo, color)] + tramos_desde(cs, k + 1, k, cs[k].0, cs[k].1)
    } else {
        tramos_desde(cs, k + 1, inicio, tramo + cs[k].0, color)
    }
}

/// Los tramos de una línea (la línea se cierra con un espacio para que el
/// último termine).
pub open spec fn tramos_de(l: Seq<char>) -> Seq<(int, Seq<char>, Option<Seq<u8>>)> {
    tramos_desde(celdas_linea(l).push((seq![' '], None)), 0, 0, seq![], None)
}

/// Un color opcional por sus canales.
pub open spec fn vista_color(c: Option<[u8; 3]>) -> Option<Seq<u8>> {
    match c {
        Some(v) => Some(v@),
        None => None,
    }
}

/// Unas celdas por sus caracteres y canales.
pub open spec fn vista_celdas(v: Seq<(Vec<char>, Option<[u8; 3]>)>) -> Seq<(Seq<char>, Option<Seq<u8>>)> {
    v.map_values(|c: (Vec<char>, Option<[u8; 3]>)| (c.0@, vista_color(c.1)))
}

/// Unos tramos por sus números, caracteres y canales.
pub open spec fn vista_tramos(v: Seq<(usize, String, Option<[u8; 3]>)>) -> Seq<(int, Seq<char>, Option<Seq<u8>>)> {
    v.map_values(|t: (usize, String, Option<[u8; 3]>)| (t.0 as int, t.1@, vista_color(t.2)))
}

fn es_param_exec(c: char) -> (b: bool)
    ensures
        b == es_param(c),
{
    ('0' <= c && c <= '9') || c == ';'
}

fn fin_params_exec(l: &Vec<char>, j: usize) -> (r: usize)
    requires
        j <= l@.len(),
    ensures
        r as int == fin_params(l@, j as int),
        j <= r <= l@.len(),
    decreases l@.len() - j,
{
    if j >= l.len() || !es_param_exec(l[j]) {
        j
    } else {
        fin_params_exec(l, j + 1)
    }
}

fn largo_sgr_exec(l: &Vec<char>, i: usize) -> (n: usize)
    requires
        i < l@.len(),
    ensures
        n as int == largo_sgr(l@, i as int),
        n > 0 ==> n >= 3 && i + n <= l@.len(),
{
    let largo = l.len();
    if i < largo - 1 && l[i] == '\x1b' && l[i + 1] == '[' {
        let j = fin_params_exec(l, i + 2);
        if j < l.len() && l[j] == 'm' {
            j + 1 - i
        } else {
            0
        }
    } else {
        0
    }
}

fn trozos_exec(p: &Vec<char>) -> (r: Vec<Vec<char>>)
    ensures
        vista(r@) == trozos(p@),
{
    let mut r: Vec<Vec<char>> = Vec::new();
    r.push(Vec::new());
    let mut i: usize = 0;
    assert(p@.take(0) =~= Seq::<char>::empty());
    assert(vista(r@) =~= trozos(p@.take(0)));
    while i < p.len()
        invariant
            i <= p@.len(),
            r@.len() > 0,
            vista(r@) == trozos(p@.take(i as int)),
        decreases p.len() - i,
    {
        let ghost antes = vista(r@);
        assert(p@.take(i + 1).drop_last() =~= p@.take(i as int));
        assert(p@.take(i + 1).last() == p@[i as int]);
        if p[i] == ';' {
            r.push(Vec::new());
            assert(vista(r@) =~= antes.push(seq![]));
        } else {
            let ult = r.len() - 1;
            let mut t = r.pop().unwrap();
            t.push(p[i]);
            r.push(t);
            assert(vista(r@) =~= antes.update(antes.len() - 1, antes.last().push(p@[i as int])));
        }
        i = i + 1;
    }
    assert(p@.take(p@.len() as int) =~= p@);
    r
}

fn canal_exec(t: &Vec<char>) -> (r: Option<u8>)
    ensures
        r == canal_sgr(t@),
{
    match leer_usize(t) {
        Some(n) => if n <= 255 {
            Some(n as u8)
        } else {
            None
        },
        None => None,
    }
}

fn es_texto(a: &Vec<char>, b: &[char]) -> (r: bool)
    ensures
        r == (a@ == b@),
{
    if a.len() != b.len() {
        assert(a@.len() != b@.len());
        return false;
    }
    let mut i: usize = 0;
    while i < a.len()
        invariant
            i <= a@.len(),
            a@.len() == b@.len(),
            forall|k: int| 0 <= k < i ==> a@[k] == b@[k],
        decreases a.len() - i,
    {
        if a[i] != b[i] {
            return false;
        }
        i = i + 1;
    }
    assert(a@ =~= b@);
    true
}

fn color_sgr_exec(p: &Vec<char>, color: Option<[u8; 3]>) -> (r: Option<[u8; 3]>)
    ensures
        vista_color(r) == color_sgr(p@, vista_color(color)),
{
    let cero = ['0'];
    assert(cero@ =~= seq!['0']);
    if p.len() == 0 || es_texto(p, &cero) {
        return None;
    }
    let ts = trozos_exec(p);
    let ghost tv = vista(ts@);
    let ocho = ['3', '8'];
    let dos = ['2'];
    assert(ocho@ =~= seq!['3', '8']);
    assert(dos@ =~= seq!['2']);
    if ts.len() == 5 && es_texto(&ts[0], &ocho) && es_texto(&ts[1], &dos) {
        assert(tv[0] == ts@[0]@ && tv[1] == ts@[1]@ && tv[2] == ts@[2]@ && tv[3] == ts@[3]@
            && tv[4] == ts@[4]@);
        match (canal_exec(&ts[2]), canal_exec(&ts[3]), canal_exec(&ts[4])) {
            (Some(r), Some(g), Some(b)) => {
                let c = [r, g, b];
                assert(c@ =~= seq![r, g, b]);
                return Some(c);
            },
            _ => {},
        }
    } else {
        proof {
            if ts@.len() == 5 {
                assert(tv[0] == ts@[0]@ && tv[1] == ts@[1]@);
            }
        }
    }
    color
}

/// Los grafemas de un texto sin secuencias, con su color, tras `r`.
fn anadir_con_color(r: &mut Vec<(Vec<char>, Option<[u8; 3]>)>, actual: &Vec<char>, color: Option<[u8; 3]>)
    ensures
        vista_celdas(final(r)@) == vista_celdas(old(r)@) + con_color(actual@, vista_color(color)),
{
    if actual.len() == 0 {
        assert(vista_celdas(r@) =~= vista_celdas(r@) + Seq::<(Seq<char>, Option<Seq<u8>>)>::empty());
        return;
    }
    let gs = grafemas(actual.as_slice());
    let ghost antes = vista_celdas(r@);
    let ghost cc = con_color(actual@, vista_color(color));
    let mut k: usize = 0;
    while k < gs.len()
        invariant
            k <= gs@.len(),
            vista(gs@) == grafemas_de(actual@),
            actual@.len() > 0,
            cc == con_color(actual@, vista_color(color)),
            vista_celdas(r@) == antes + cc.take(k as int),
        decreases gs.len() - k,
    {
        assert(vista(gs@)[k as int] == gs@[k as int]@);
        assert(cc.len() == gs@.len());
        assert(cc[k as int] == (gs@[k as int]@, vista_color(color)));
        let mut g: Vec<char> = Vec::new();
        copiar(&gs[k], &mut g);
        assert(g@ =~= gs@[k as int]@);
        let ghost previo = r@;
        r.push((g, color));
        assert(r@ == previo.push((g, color)));
        assert(vista_celdas(r@) =~= vista_celdas(previo).push((g@, vista_color(color))));
        assert(cc.take(k + 1) =~= cc.take(k as int).push(cc[k as int]));
        k = k + 1;
        assert(vista_celdas(r@) =~= antes + cc.take(k as int));
    }
    assert(cc.take(cc.len() as int) =~= cc);
}

/// Cada grafema de la línea `l` con su color (ver `celdas_linea`).
pub fn celdas(l: &Vec<char>) -> (r: Vec<(Vec<char>, Option<[u8; 3]>)>)
    ensures
        vista_celdas(r@) == celdas_linea(l@),
{
    let mut r: Vec<(Vec<char>, Option<[u8; 3]>)> = Vec::new();
    let mut actual: Vec<char> = Vec::new();
    let mut color: Option<[u8; 3]> = None;
    let mut i: usize = 0;
    while i < l.len()
        invariant
            i <= l@.len(),
            vista_celdas(r@) + celdas_desde(l@, i as int, actual@, vista_color(color))
                == celdas_linea(l@),
        decreases l.len() - i,
    {
        let n = largo_sgr_exec(l, i);
        if n > 0 {
            let mut p: Vec<char> = Vec::new();
            let fin = i + n - 1;
            let mut j = i + 2;
            while j < fin
                invariant
                    i + 2 <= j <= fin,
                    fin == i + n - 1,
                    i + n <= l@.len(),
                    p@ == l@.subrange(i + 2, j as int),
                decreases fin - j,
            {
                p.push(l[j]);
                j = j + 1;
                assert(p@ =~= l@.subrange(i + 2, j as int));
            }
            let ghost antes = vista_celdas(r@);
            anadir_con_color(&mut r, &actual, color);
            let nuevo = color_sgr_exec(&p, color);
            assert(vista_celdas(r@) + celdas_desde(l@, i + n, Seq::<char>::empty(), vista_color(nuevo))
                =~= antes + celdas_desde(l@, i as int, actual@, vista_color(color)));
            actual = Vec::new();
            assert(actual@ =~= Seq::<char>::empty());
            color = nuevo;
            i = i + n;
        } else {
            actual.push(l[i]);
            i = i + 1;
        }
    }
    let ghost antes = vista_celdas(r@);
    anadir_con_color(&mut r, &actual, color);
    r
}

/// Una línea sin sus secuencias ANSI.
pub fn quitar_ansi_linea(l: &Vec<char>) -> (r: Vec<char>)
    ensures
        r@ == sin_ansi(l@),
{
    let mut r: Vec<char> = Vec::new();
    let mut i: usize = 0;
    while i < l.len()
        invariant
            i <= l@.len(),
            r@ + sin_ansi_desde(l@, i as int) == sin_ansi(l@),
        decreases l.len() - i,
    {
        let n = largo_sgr_exec(l, i);
        if n > 0 {
            i = i + n;
        } else {
            let ghost antes = r@;
            r.push(l[i]);
            assert(r@ + sin_ansi_desde(l@, i + 1) =~= antes + sin_ansi_desde(l@, i as int));
            i = i + 1;
        }
    }
    assert(r@ + sin_ansi_desde(l@, i as int) =~= r@);
    r
}

fn copiar(g: &Vec<char>, v: &mut Vec<char>)
    ensures
        final(v)@ == old(v)@ + g@,
{
    let mut j: usize = 0;
    let ghost antes = v@;
    while j < g.len()
        invariant
            j <= g@.len(),
            v@ == antes + g@.take(j as int),
        decreases g.len() - j,
    {
        v.push(g[j]);
        j = j + 1;
        assert(v@ =~= antes + g@.take(j as int));
    }
    assert(g@.take(g@.len() as int) =~= g@);
}

fn mismo(a: Option<[u8; 3]>, b: Option<[u8; 3]>) -> (r: bool)
    ensures
        r == (vista_color(a) == vista_color(b)),
{
    match (a, b) {
        (Some(x), Some(y)) => {
            let r = x[0] == y[0] && x[1] == y[1] && x[2] == y[2];
            proof {
                if r {
                    assert(x@ =~= y@);
                } else {
                    assert(x@ != y@) by {
                        if x@ == y@ {
                            assert(x@[0] == y@[0] && x@[1] == y@[1] && x@[2] == y@[2]);
                        }
                    }
                }
            }
            r
        },
        (None, None) => true,
        _ => false,
    }
}

fn todo_espacio(g: &Vec<char>) -> (b: bool)
    ensures
        b == en_blanco(g@),
{
    crate::texto::todo_blanco(g)
}

/// Los tramos de la línea `l` (ver `tramos_de`): cada uno con su columna,
/// su texto y su color.
pub fn tramos(l: &Vec<char>) -> (r: Vec<(usize, String, Option<[u8; 3]>)>)
    ensures
        vista_tramos(r@) == tramos_de(l@),
        forall|i: int| 0 <= i < r@.len() ==> (#[trigger] r@[i]).0 < celdas_linea(l@).len(),
{
    let mut cs = celdas(l);
    let mut cierre: Vec<char> = Vec::new();
    cierre.push(' ');
    cs.push((cierre, None));
    let ghost c = vista_celdas(cs@);
    assert(c =~= celdas_linea(l@).push((seq![' '], None)));
    let mut r: Vec<(usize, String, Option<[u8; 3]>)> = Vec::new();
    let mut tramo: Vec<char> = Vec::new();
    let mut color: Option<[u8; 3]> = None;
    let mut inicio: usize = 0;
    let mut k: usize = 0;
    while k < cs.len()
        invariant
            k <= cs@.len(),
            c == vista_celdas(cs@),
            c.len() == celdas_linea(l@).len() + 1,
            en_blanco(c[c.len() - 1].0),
            inicio <= k,
            tramo@.len() > 0 ==> inicio < k,
            vista_tramos(r@) + tramos_desde(c, k as int, inicio as int, tramo@, vista_color(color))
                == tramos_de(l@),
            forall|i: int| 0 <= i < r@.len() ==> (#[trigger] r@[i]).0 < celdas_linea(l@).len(),
        decreases cs.len() - k,
    {
        let ghost antes = vista_tramos(r@);
        let ghost t0 = tramo@;
        let ghost col0 = vista_color(color);
        let ghost i0 = inicio as int;
        assert(c[k as int] == (cs@[k as int].0@, vista_color(cs@[k as int].1)));
        let blanco = todo_espacio(&cs[k].0);
        if blanco {
            if tramo.len() > 0 {
                let texto = cadena(tramo.as_slice());
                r.push((inicio, texto, color));
                assert(vista_tramos(r@) =~= antes + seq![(i0, t0, col0)]);
            } else {
                assert(vista_tramos(r@) =~= antes + Seq::<(int, Seq<char>, Option<Seq<u8>>)>::empty());
            }
            tramo = Vec::new();
            assert(vista_tramos(r@) + tramos_desde(c, k + 1, i0, tramo@, col0) =~= antes
                + tramos_desde(c, k as int, i0, t0, col0));
        } else if tramo.len() == 0 {
            inicio = k;
            let mut nuevo: Vec<char> = Vec::new();
            copiar(&cs[k].0, &mut nuevo);
            tramo = nuevo;
            color = cs[k].1;
            assert(tramo@ =~= c[k as int].0);
        } else if !mismo(cs[k].1, color) {
            let texto = cadena(tramo.as_slice());
            r.push((inicio, texto, color));
            assert(vista_tramos(r@) =~= antes + seq![(i0, t0, col0)]);
            inicio = k;
            let mut nuevo: Vec<char> = Vec::new();
            copiar(&cs[k].0, &mut nuevo);
            tramo = nuevo;
            color = cs[k].1;
            assert(tramo@ =~= c[k as int].0);
            assert(vista_tramos(r@) + tramos_desde(c, k + 1, k as int, tramo@, vista_color(color))
                =~= antes + tramos_desde(c, k as int, i0, t0, col0));
        } else {
            copiar(&cs[k].0, &mut tramo);
        }
        k = k + 1;
    }
    assert(vista_tramos(r@) + tramos_desde(c, k as int, inicio as int, tramo@, vista_color(color))
        =~= vista_tramos(r@));
    r
}

/// El texto sin sus secuencias ANSI, línea a línea.
pub fn quitar_ansi(texto: &str) -> (s: String)
    ensures
        s@ == unir(partes(texto@).map_values(|l: Seq<char>| sin_ansi(l))),
{
    let cs = caracteres(texto);
    let lineas = partir(&cs);
    let ghost ps = partes(texto@);
    let ghost limpias = ps.map_values(|l: Seq<char>| sin_ansi(l));
    let mut v: Vec<char> = Vec::new();
    let mut j: usize = 0;
    while j < lineas.len()
        invariant
            j <= lineas@.len(),
            vista(lineas@) == ps,
            limpias == ps.map_values(|l: Seq<char>| sin_ansi(l)),
            v@ == unir(limpias.take(j as int)),
        decreases lineas.len() - j,
    {
        assert(ps[j as int] == lineas@[j as int]@);
        let limpia = quitar_ansi_linea(&lineas[j]);
        if j > 0 {
            v.push('\n');
        }
        copiar(&limpia, &mut v);
        proof {
            let t = limpias.take(j + 1);
            assert(t.drop_last() =~= limpias.take(j as int));
            lema_unir_push(t.drop_last(), t.last());
            assert(t.drop_last().push(t.last()) =~= t);
            if j == 0 {
                assert(v@ =~= unir(t));
            } else {
                assert(v@ =~= unir(t.drop_last()) + seq!['\n'] + t.last());
            }
        }
        j = j + 1;
    }
    assert(limpias.take(lineas@.len() as int) =~= limpias);
    cadena(v.as_slice())
}

/// Cuántas columnas ocupa cada línea en el SVG: sus grafemas sin contar las
/// secuencias ANSI.
pub fn columnas_por_linea(texto: &str) -> (r: Vec<usize>)
    ensures
        r@.len() == partes(texto@).len(),
        forall|k: int| 0 <= k < r@.len() ==> #[trigger] r@[k] == celdas_linea(partes(texto@)[k]).len(),
{
    let cs = caracteres(texto);
    let lineas = partir(&cs);
    let mut r: Vec<usize> = Vec::new();
    let mut j: usize = 0;
    while j < lineas.len()
        invariant
            j <= lineas@.len(),
            vista(lineas@) == partes(texto@),
            r@.len() == j,
            forall|k: int| 0 <= k < j ==> #[trigger] r@[k] == celdas_linea(partes(texto@)[k]).len(),
        decreases lineas.len() - j,
    {
        assert(partes(texto@)[j as int] == lineas@[j as int]@);
        let c = celdas(&lineas[j]);
        assert(vista_celdas(c@).len() == c@.len());
        r.push(c.len());
        j = j + 1;
    }
    r
}

} // verus!
