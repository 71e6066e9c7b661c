//! Escribir el texto en las celdas de figura de una o varias rejillas
//! (fotogramas), y el resumen de una rejilla para diseñar el texto.

use vstd::prelude::*;

use crate::texto::{
    cadena, ciclo_de, en_blanco, es_espacio, espacio, grafema_de, sin_espacio_final, Texto,
};
use crate::{Error, Espacios};

verus! {

/// Las filas de una rejilla, como secuencias de celdas.
pub open spec fn vista_rejilla(r: Seq<Vec<bool>>) -> Seq<Seq<bool>> {
    r.map_values(|f: Vec<bool>| f@)
}

/// Varias rejillas (los fotogramas), cada una con sus filas.
pub open spec fn vista_rejillas(rs: Seq<Vec<Vec<bool>>>) -> Seq<Seq<Seq<bool>>> {
    rs.map_values(|r: Vec<Vec<bool>>| vista_rejilla(r@))
}

/// Celdas de figura de una fila.
pub open spec fn cuenta(f: Seq<bool>) -> nat
    decreases f.len(),
{
    if f.len() == 0 {
        0
    } else {
        cuenta(f.drop_last()) + if f.last() {
            1nat
        } else {
            0nat
        }
    }
}

/// La celda `x` de la fila `y` de la rejilla `k` existe y es de figura.
pub open spec fn celda(rs: Seq<Seq<Seq<bool>>>, k: int, y: int, x: int) -> bool {
    &&& 0 <= k < rs.len()
    &&& 0 <= y < rs[k].len()
    &&& 0 <= x < rs[k][y].len()
    &&& rs[k][y][x]
}

/// Alguna rejilla tiene alguna celda de figura.
pub open spec fn hay_figura(rs: Seq<Seq<Seq<bool>>>) -> bool {
    exists|k: int, y: int, x: int| celda(rs, k, y, x)
}

/// `p` y `u` son la primera y la última fila con figura en alguna de las
/// rejillas, y `m` la primera columna con figura en alguna fila: el recorte
/// común a todos los fotogramas.
pub open spec fn es_recorte(rs: Seq<Seq<Seq<bool>>>, p: int, u: int, m: int) -> bool {
    &&& exists|k: int, x: int| celda(rs, k, p, x)
    &&& exists|k: int, x: int| celda(rs, k, u, x)
    &&& exists|k: int, y: int| celda(rs, k, y, m)
    &&& forall|k: int, y: int, x: int| celda(rs, k, y, x) ==> p <= y <= u && m <= x
}

/// El recorte común (primera fila, última fila, margen) de unas rejillas con
/// figura.
pub open spec fn recorte_de(rs: Seq<Seq<Seq<bool>>>) -> (int, int, int) {
    choose|c: (int, int, int)| es_recorte(rs, c.0, c.1, c.2)
}

/// El recorte, si existe, es único.
pub proof fn lema_recorte_unico(rs: Seq<Seq<Seq<bool>>>, p: int, u: int, m: int)
    requires
        es_recorte(rs, p, u, m),
    ensures
        recorte_de(rs) == (p, u, m),
{
    let w = (p, u, m);
    assert(es_recorte(rs, w.0, w.1, w.2));
    let c = recorte_de(rs);
    assert(es_recorte(rs, c.0, c.1, c.2));
    let (k1, x1) = choose|k: int, x: int| celda(rs, k, p, x);
    let (k2, x2) = choose|k: int, x: int| celda(rs, k, c.0, x);
    let (k3, x3) = choose|k: int, x: int| celda(rs, k, u, x);
    let (k4, x4) = choose|k: int, x: int| celda(rs, k, c.1, x);
    let (k5, y5) = choose|k: int, y: int| celda(rs, k, y, m);
    let (k6, y6) = choose|k: int, y: int| celda(rs, k, y, c.2);
    assert(celda(rs, k1, p, x1) && celda(rs, k2, c.0, x2));
    assert(celda(rs, k3, u, x3) && celda(rs, k4, c.1, x4));
    assert(celda(rs, k5, y5, m) && celda(rs, k6, y6, c.2));
}

/// La fila `y` de una rejilla; fuera de la rejilla, una fila vacía.
pub open spec fn fila(r: Seq<Seq<bool>>, y: int) -> Seq<bool> {
    if 0 <= y < r.len() {
        r[y]
    } else {
        seq![]
    }
}

/// Las celdas de una fila a partir del margen `m`.
pub open spec fn desde(f: Seq<bool>, m: int) -> Seq<bool> {
    if 0 <= m <= f.len() {
        f.skip(m)
    } else {
        seq![]
    }
}

/// Lo que se escribe en las celdas `c`: la celda de figura que hace la
/// número `j` de la fila recibe el grafema `inicio + j` del texto; las
/// demás, un espacio.
pub open spec fn celdas(c: Seq<bool>, inicio: int, g: Seq<Seq<char>>, rep: bool) -> Seq<char>
    decreases c.len(),
{
    if c.len() == 0 {
        seq![]
    } else {
        let previas = c.drop_last();
        celdas(previas, inicio, g, rep) + if c.last() {
            grafema_de(g, rep, inicio + cuenta(previas))
        } else {
            seq![' ']
        }
    }
}

/// Letras escritas en las filas `p..y` (desde el margen `m`).
pub open spec fn letras_antes(r: Seq<Seq<bool>>, p: int, y: int, m: int) -> nat
    decreases y - p,
{
    if y <= p {
        0
    } else {
        letras_antes(r, p, y - 1, m) + cuenta(desde(fila(r, y - 1), m))
    }
}

/// Las líneas de las filas `p..y`, cada una sin los espacios del final; el
/// texto empieza en su grafema `d`.
pub open spec fn lineas(
    r: Seq<Seq<bool>>,
    p: int,
    y: int,
    m: int,
    d: int,
    g: Seq<Seq<char>>,
    rep: bool,
) -> Seq<Seq<char>>
    decreases y - p,
{
    if y <= p {
        seq![]
    } else {
        lineas(r, p, y - 1, m, d, g, rep).push(
            sin_espacio_final(
                celdas(desde(fila(r, y - 1), m), d + letras_antes(r, p, y - 1, m), g, rep),
            ),
        )
    }
}

/// Las líneas unidas con `'\n'`.
pub open spec fn unir(ls: Seq<Seq<char>>) -> Seq<char>
    decreases ls.len(),
{
    if ls.len() == 0 {
        seq![]
    } else if ls.len() == 1 {
        ls[0]
    } else {
        unir(ls.drop_last()) + seq!['\n'] + ls.last()
    }
}

/// El fotograma de la rejilla `r` recortado a las filas `p..=u` y al margen
/// `m`, con el texto empezando en su grafema `d`.
pub open spec fn dibujo(
    r: Seq<Seq<bool>>,
    p: int,
    u: int,
    m: int,
    d: int,
    g: Seq<Seq<char>>,
    rep: bool,
) -> Seq<char> {
    unir(lineas(r, p, u + 1, m, d, g, rep))
}

pub proof fn lema_letras_antes_crece(r: Seq<Seq<bool>>, p: int, y: int, z: int, m: int)
    requires
        p <= y <= z,
    ensures
        letras_antes(r, p, y, m) <= letras_antes(r, p, z, m),
    decreases z - y,
{
    if y < z {
        lema_letras_antes_crece(r, p, y, z - 1, m);
    }
}

/// La primera celda de figura de una fila.
fn primera_celda(f: &Vec<bool>) -> (r: Option<usize>)
    ensures
        r matches Some(x) ==> x < f@.len() && f@[x as int] && forall|j: int|
            0 <= j < x ==> !#[trigger] f@[j],
        r is None ==> forall|j: int| 0 <= j < f@.len() ==> !#[trigger] f@[j],
{
    let mut x: usize = 0;
    while x < f.len()
        invariant
            x <= f@.len(),
            forall|j: int| 0 <= j < x ==> !#[trigger] f@[j],
        decreases f.len() - x,
    {
        if f[x] {
            return Some(x);
        }
        x = x + 1;
    }
    None
}

/// Celdas ya recorridas al buscar el recorte: las rejillas `0..kk` enteras y
/// las filas `0..yy` de la rejilla `kk`.
pub open spec fn vista_hasta(rs: Seq<Seq<Seq<bool>>>, kk: int, yy: int, k: int, y: int, x: int) -> bool {
    celda(rs, k, y, x) && (k < kk || (k == kk && y < yy))
}

/// El recorte de lo recorrido hasta ahora.
pub open spec fn recorte_parcial(
    rs: Seq<Seq<Seq<bool>>>,
    kk: int,
    yy: int,
    r: Option<(usize, usize, usize)>,
) -> bool {
    match r {
        None => forall|k: int, y: int, x: int| !#[trigger] vista_hasta(rs, kk, yy, k, y, x),
        Some((p, u, m)) => {
            &&& exists|k: int, x: int| vista_hasta(rs, kk, yy, k, p as int, x)
            &&& exists|k: int, x: int| vista_hasta(rs, kk, yy, k, u as int, x)
            &&& exists|k: int, y: int| vista_hasta(rs, kk, yy, k, y, m as int)
            &&& forall|k: int, y: int, x: int|
                #[trigger] vista_hasta(rs, kk, yy, k, y, x) ==> p <= y <= u && m <= x
        },
    }
}

/// El recorte tras recorrer una fila más, cuya primera celda de figura es `x`.
pub open spec fn actualizar_spec(
    mejor: Option<(usize, usize, usize)>,
    y: usize,
    x: Option<usize>,
) -> Option<(usize, usize, usize)> {
    match x {
        None => mejor,
        Some(x) => match mejor {
            None => Some((y, y, x)),
            Some((p, u, m)) => Some(
                (
                    if y < p {
                        y
                    } else {
                        p
                    },
                    if y > u {
                        y
                    } else {
                        u
                    },
                    if x < m {
                        x
                    } else {
                        m
                    },
                ),
            ),
        },
    }
}

fn actualizar(mejor: Option<(usize, usize, usize)>, y: usize, x: Option<usize>) -> (r: Option<
    (usize, usize, usize),
>)
    ensures
        r == actualizar_spec(mejor, y, x),
{
    match x {
        None => mejor,
        Some(x) => match mejor {
            None => Some((y, y, x)),
            Some((p, u, m)) => Some(
                (
                    if y < p {
                        y
                    } else {
                        p
                    },
                    if y > u {
                        y
                    } else {
                        u
                    },
                    if x < m {
                        x
                    } else {
                        m
                    },
                ),
            ),
        },
    }
}

proof fn lema_paso_fila(
    rs: Seq<Seq<Seq<bool>>>,
    k: int,
    y: int,
    mejor: Option<(usize, usize, usize)>,
    x: Option<usize>,
)
    requires
        0 <= k < rs.len(),
        0 <= y < rs[k].len(),
        y <= usize::MAX,
        recorte_parcial(rs, k, y, mejor),
        x matches Some(x) ==> x < rs[k][y].len() && rs[k][y][x as int] && forall|j: int|
            0 <= j < x ==> !#[trigger] rs[k][y][j],
        x is None ==> forall|j: int| 0 <= j < rs[k][y].len() ==> !#[trigger] rs[k][y][j],
    ensures
        recorte_parcial(rs, k, y + 1, actualizar_spec(mejor, y as usize, x)),
{
    let y1 = y + 1;
    assert forall|kq: int, yq: int, xq: int| #[trigger]
        vista_hasta(rs, k, y1, kq, yq, xq) implies vista_hasta(rs, k, y, kq, yq, xq) || (kq == k
        && yq == y && rs[k][y][xq]) by {}
    if let Some((p, u, m)) = mejor {
        let (k1, x1) = choose|kq: int, xq: int| vista_hasta(rs, k, y, kq, p as int, xq);
        assert(vista_hasta(rs, k, y1, k1, p as int, x1));
        let (k2, x2) = choose|kq: int, xq: int| vista_hasta(rs, k, y, kq, u as int, xq);
        assert(vista_hasta(rs, k, y1, k2, u as int, x2));
        let (k3, y3) = choose|kq: int, yq: int| vista_hasta(rs, k, y, kq, yq, m as int);
        assert(vista_hasta(rs, k, y1, k3, y3, m as int));
    }
    match x {
        None => {
            assert forall|kq: int, yq: int, xq: int| #[trigger]
                vista_hasta(rs, k, y1, kq, yq, xq) implies vista_hasta(rs, k, y, kq, yq, xq) by {
                if kq == k && yq == y {
                    assert(!rs[k][y][xq]);
                }
            }
        },
        Some(x) => {
            assert(vista_hasta(rs, k, y1, k, y, x as int));
            let nuevo = actualizar_spec(mejor, y as usize, Some(x))->0;
            assert forall|kq: int, yq: int, xq: int| #[trigger]
                vista_hasta(rs, k, y1, kq, yq, xq) implies nuevo.0 <= yq <= nuevo.1 && nuevo.2
                <= xq by {
                if !vista_hasta(rs, k, y, kq, yq, xq) {
                    assert(kq == k && yq == y);
                    if xq < x {
                        assert(!rs[k][y][xq]);
                    }
                }
            }
        },
    }
}

/// El recorte común de varias rejillas: `None` si ninguna tiene figura.
pub fn recorte(rejillas: &[Vec<Vec<bool>>]) -> (r: Option<(usize, usize, usize)>)
    ensures
        r is None <==> !hay_figura(vista_rejillas(rejillas@)),
        r matches Some((p, u, m)) ==> es_recorte(
            vista_rejillas(rejillas@),
            p as int,
            u as int,
            m as int,
        ),
{
    let ghost rs = vista_rejillas(rejillas@);
    let mut mejor: Option<(usize, usize, usize)> = None;
    let mut k: usize = 0;
    while k < rejillas.len()
        invariant
            k <= rejillas@.len(),
            rs == vista_rejillas(rejillas@),
            recorte_parcial(rs, k as int, 0, mejor),
        decreases rejillas.len() - k,
    {
        let rejilla = &rejillas[k];
        let mut y: usize = 0;
        assert(recorte_parcial(rs, k as int, 0, mejor));
        while y < rejilla.len()
            invariant
                k < rejillas@.len(),
                y <= rejilla@.len(),
                *rejilla == rejillas@[k as int],
                rs == vista_rejillas(rejillas@),
                recorte_parcial(rs, k as int, y as int, mejor),
            decreases rejilla.len() - y,
        {
            let fila = &rejilla[y];
            assert(rs[k as int][y as int] == fila@);
            let celda_x = primera_celda(fila);
            proof {
                lema_paso_fila(rs, k as int, y as int, mejor, celda_x);
            }
            mejor = actualizar(mejor, y, celda_x);
            y = y + 1;
        }
        proof {
            assert forall|kq: int, yq: int, xq: int|
                #[trigger] vista_hasta(rs, k + 1, 0, kq, yq, xq) == vista_hasta(
                    rs,
                    k as int,
                    y as int,
                    kq,
                    yq,
                    xq,
                ) by {
                if kq == k && vista_hasta(rs, k + 1, 0, kq, yq, xq) {
                    assert(yq < rs[k as int].len());
                }
            }
            if let Some((p, u, m)) = mejor {
                let (k1, x1) = choose|kq: int, xq: int|
                    vista_hasta(rs, k as int, y as int, kq, p as int, xq);
                assert(vista_hasta(rs, k + 1, 0, k1, p as int, x1));
                let (k2, x2) = choose|kq: int, xq: int|
                    vista_hasta(rs, k as int, y as int, kq, u as int, xq);
                assert(vista_hasta(rs, k + 1, 0, k2, u as int, x2));
                let (k3, y3) = choose|kq: int, yq: int|
                    vista_hasta(rs, k as int, y as int, kq, yq, m as int);
                assert(vista_hasta(rs, k + 1, 0, k3, y3, m as int));
            }
        }
        k = k + 1;
    }
    proof {
        assert forall|kq: int, yq: int, xq: int|
            #[trigger] celda(rs, kq, yq, xq) implies vista_hasta(
            rs,
            k as int,
            0,
            kq,
            yq,
            xq,
        ) by {}
        if let Some((p, u, m)) = mejor {
            let (k1, x1) = choose|kq: int, xq: int| vista_hasta(rs, k as int, 0, kq, p as int, xq);
            assert(celda(rs, k1, p as int, x1));
            let (k2, x2) = choose|kq: int, xq: int| vista_hasta(rs, k as int, 0, kq, u as int, xq);
            assert(celda(rs, k2, u as int, x2));
            let (k3, y3) = choose|kq: int, yq: int| vista_hasta(rs, k as int, 0, kq, yq, m as int);
            assert(celda(rs, k3, y3, m as int));
        } else {
            if hay_figura(rs) {
                let (kq, yq, xq) = choose|kq: int, yq: int, xq: int| celda(rs, kq, yq, xq);
                assert(vista_hasta(rs, k as int, 0, kq, yq, xq));
            }
        }
    }
    mejor
}

/// Largo de `v` sin los espacios en blanco del final.
fn fin_sin_espacios(v: &Vec<char>) -> (fin: usize)
    ensures
        fin <= v.len(),
        sin_espacio_final(v@) == v@.take(fin as int),
{
    let mut fin: usize = v.len();
    assert(v@.take(v.len() as int) =~= v@);
    while fin > 0 && espacio(v[fin - 1])
        invariant
            fin <= v.len(),
            sin_espacio_final(v@.take(fin as int)) == sin_espacio_final(v@),
        decreases fin,
    {
        assert(v@.take(fin as int).drop_last() =~= v@.take(fin - 1));
        fin = fin - 1;
    }
    fin
}

/// Añade `s` al final de `v`.
fn anadir(v: &mut Vec<char>, s: &Vec<char>)
    ensures
        final(v)@ == old(v)@ + s@,
{
    let mut i: usize = 0;
    while i < s.len()
        invariant
            i <= s.len(),
            v@ == old(v)@ + s@.take(i as int),
        decreases s.len() - i,
    {
        v.push(s[i]);
        assert(s@.take(i + 1) =~= s@.take(i as int).push(s@[i as int]));
        i = i + 1;
    }
    assert(s@.take(s.len() as int) =~= s@);
}

/// Escribe una fila desde el margen `m`; el texto va por la posición
/// reducida `j` (la de `inicio`). Devuelve la línea sin espacios finales y la
/// posición reducida tras la fila.
fn escribir_linea(f: &Vec<bool>, m: usize, j: usize, Ghost(inicio): Ghost<int>, t: &Texto) -> (r: (
    Vec<char>,
    usize,
))
    requires
        t.bien_formado(),
        0 <= inicio,
        j == t.reducido(inicio),
    ensures
        r.0@ == sin_espacio_final(celdas(desde(f@, m as int), inicio, t.ciclo_spec(), t.repetir)),
        r.1 == t.reducido(inicio + cuenta(desde(f@, m as int))),
{
    let ghost c = desde(f@, m as int);
    let mut buf: Vec<char> = Vec::new();
    let mut j = j;
    proof {
        t.lema_reducido(inicio);
    }
    if m < f.len() {
        let mut x: usize = m;
        while x < f.len()
            invariant
                m <= x <= f@.len(),
                c == f@.skip(m as int),
                t.bien_formado(),
                0 <= inicio,
                buf@ == celdas(c.take(x - m), inicio, t.ciclo_spec(), t.repetir),
                j == t.reducido(inicio + cuenta(c.take(x - m))),
            decreases f.len() - x,
        {
            let ghost previas = c.take(x - m);
            assert(c.take(x - m + 1).drop_last() =~= previas);
            assert(c.take(x - m + 1).last() == f@[x as int]);
            proof {
                t.lema_reducido(inicio + cuenta(previas));
            }
            if f[x] {
                match t.en(j) {
                    Some(g) => anadir(&mut buf, g),
                    None => buf.push(' '),
                }
                j = t.siguiente(j);
            } else {
                buf.push(' ');
            }
            x = x + 1;
        }
        assert(c.take(x - m) =~= c);
    } else {
        assert(c =~= Seq::<bool>::empty());
    }
    let fin = fin_sin_espacios(&buf);
    buf.truncate(fin);
    (buf, j)
}

pub proof fn lema_unir_push(ls: Seq<Seq<char>>, l: Seq<char>)
    ensures
        unir(ls.push(l)) == if ls.len() == 0 {
            l
        } else {
            unir(ls) + seq!['\n'] + l
        },
{
    assert(ls.push(l).drop_last() =~= ls);
}

pub proof fn lema_lineas_largo(
    r: Seq<Seq<bool>>,
    p: int,
    y: int,
    m: int,
    d: int,
    g: Seq<Seq<char>>,
    rep: bool,
)
    requires
        p <= y,
    ensures
        lineas(r, p, y, m, d, g, rep).len() == y - p,
    decreases y - p,
{
    if y > p {
        lema_lineas_largo(r, p, y - 1, m, d, g, rep);
    }
}

/// El fotograma de una rejilla con el recorte `p..=u`, margen `m` y el texto
/// empezando en su grafema `d`.
pub fn dibujar_cuadro(r: &Vec<Vec<bool>>, p: usize, u: usize, m: usize, d: usize, t: &Texto) -> (s:
    Vec<char>)
    requires
        t.bien_formado(),
        p <= u < usize::MAX,
    ensures
        s@ == dibujo(
            vista_rejilla(r@),
            p as int,
            u as int,
            m as int,
            d as int,
            t.ciclo_spec(),
            t.repetir,
        ),
{
    let ghost rv = vista_rejilla(r@);
    let vacia: Vec<bool> = Vec::new();
    let mut out: Vec<char> = Vec::new();
    let mut j = t.reducir(d);
    let mut y: usize = p;
    while y <= u
        invariant
            p <= y <= u + 1,
            u < usize::MAX,
            t.bien_formado(),
            rv == vista_rejilla(r@),
            vacia@ == Seq::<bool>::empty(),
            out@ == unir(lineas(rv, p as int, y as int, m as int, d as int, t.ciclo_spec(), t.repetir)),
            j == t.reducido(d + letras_antes(rv, p as int, y as int, m as int)),
        decreases u + 1 - y,
    {
        let f = if y < r.len() {
            &r[y]
        } else {
            &vacia
        };
        assert(f@ == fila(rv, y as int));
        let ghost inicio = d + letras_antes(rv, p as int, y as int, m as int);
        let (linea, nj) = escribir_linea(f, m, j, Ghost(inicio), t);
        proof {
            lema_lineas_largo(rv, p as int, y as int, m as int, d as int, t.ciclo_spec(), t.repetir);
            lema_unir_push(
                lineas(rv, p as int, y as int, m as int, d as int, t.ciclo_spec(), t.repetir),
                linea@,
            );
        }
        if y > p {
            out.push('\n');
        }
        anadir(&mut out, &linea);
        j = nj;
        y = y + 1;
    }
    out
}

/// Cuántas veces aparece `c` en `s`.
pub open spec fn cuantos(s: Seq<char>, c: char) -> nat
    decreases s.len(),
{
    if s.len() == 0 {
        0
    } else {
        cuantos(s.drop_last(), c) + if s.last() == c {
            1nat
        } else {
            0nat
        }
    }
}

/// `c` no aparece en `s`.
pub open spec fn sin(s: Seq<char>, c: char) -> bool {
    forall|i: int| 0 <= i < s.len() ==> s[i] != c
}

pub proof fn lema_cuantos_concat(a: Seq<char>, b: Seq<char>, c: char)
    ensures
        cuantos(a + b, c) == cuantos(a, c) + cuantos(b, c),
    decreases b.len(),
{
    if b.len() == 0 {
        assert(a + b =~= a);
    } else {
        lema_cuantos_concat(a, b.drop_last(), c);
        assert((a + b).drop_last() =~= a + b.drop_last());
    }
}

pub proof fn lema_cuantos_sin(s: Seq<char>, c: char)
    requires
        sin(s, c),
    ensures
        cuantos(s, c) == 0,
    decreases s.len(),
{
    if s.len() > 0 {
        lema_cuantos_sin(s.drop_last(), c);
    }
}

proof fn lema_sin_espacio_final_prefijo(s: Seq<char>)
    ensures
        sin_espacio_final(s).len() <= s.len(),
        sin_espacio_final(s) == s.take(sin_espacio_final(s).len() as int),
    decreases s.len(),
{
    if s.len() > 0 && es_espacio(s.last()) {
        lema_sin_espacio_final_prefijo(s.drop_last());
        assert(s.drop_last().take(sin_espacio_final(s).len() as int) =~= s.take(
            sin_espacio_final(s).len() as int,
        ));
    } else {
        assert(s.take(s.len() as int) =~= s);
    }
}

proof fn lema_grafema_sin(g: Seq<Seq<char>>, rep: bool, i: int, c: char)
    requires
        g.len() > 0,
        c != ' ',
        forall|k: int| 0 <= k < g.len() ==> sin(#[trigger] g[k], c),
    ensures
        sin(grafema_de(g, rep, i), c),
{
    if rep {
        vstd::arithmetic::div_mod::lemma_mod_bound(i, g.len() as int);
        assert(sin(g[i % g.len() as int], c));
    }
}

proof fn lema_celdas_sin(x: Seq<bool>, ini: int, g: Seq<Seq<char>>, rep: bool, c: char)
    requires
        g.len() > 0,
        c != ' ',
        forall|k: int| 0 <= k < g.len() ==> sin(#[trigger] g[k], c),
    ensures
        sin(celdas(x, ini, g, rep), c),
    decreases x.len(),
{
    if x.len() > 0 {
        lema_celdas_sin(x.drop_last(), ini, g, rep, c);
        lema_grafema_sin(g, rep, ini + cuenta(x.drop_last()), c);
    }
}

proof fn lema_saltos_unir(ls: Seq<Seq<char>>)
    requires
        ls.len() > 0,
        forall|k: int| 0 <= k < ls.len() ==> sin(#[trigger] ls[k], '\n'),
    ensures
        cuantos(unir(ls), '\n') == ls.len() - 1,
    decreases ls.len(),
{
    if ls.len() == 1 {
        lema_cuantos_sin(ls[0], '\n');
    } else {
        let a = ls.drop_last();
        assert forall|k: int| 0 <= k < a.len() implies sin(#[trigger] a[k], '\n') by {
            assert(a[k] == ls[k]);
        }
        lema_saltos_unir(a);
        lema_cuantos_concat(unir(a) + seq!['\n'], ls.last(), '\n');
        lema_cuantos_concat(unir(a), seq!['\n'], '\n');
        lema_cuantos_sin(ls.last(), '\n');
        assert(seq!['\n'].drop_last() =~= Seq::<char>::empty());
        assert(cuantos(Seq::<char>::empty(), '\n') == 0);
        assert(cuantos(seq!['\n'], '\n') == 1);
        assert(unir(ls) == unir(a) + seq!['\n'] + ls.last());
    }
}

proof fn lema_lineas_sin(
    r: Seq<Seq<bool>>,
    p: int,
    y: int,
    m: int,
    d: int,
    g: Seq<Seq<char>>,
    rep: bool,
)
    requires
        p <= y,
        g.len() > 0,
        forall|k: int| 0 <= k < g.len() ==> sin(#[trigger] g[k], '\n'),
    ensures
        forall|k: int|
            0 <= k < lineas(r, p, y, m, d, g, rep).len() ==> sin(
                #[trigger] lineas(r, p, y, m, d, g, rep)[k],
                '\n',
            ),
    decreases y - p,
{
    if y > p {
        lema_lineas_sin(r, p, y - 1, m, d, g, rep);
        let x = celdas(desde(fila(r, y - 1), m), d + letras_antes(r, p, y - 1, m), g, rep);
        lema_celdas_sin(desde(fila(r, y - 1), m), d + letras_antes(r, p, y - 1, m), g, rep, '\n');
        lema_sin_espacio_final_prefijo(x);
        lema_lineas_largo(r, p, y - 1, m, d, g, rep);
    }
}

/// Todos los fotogramas miden igual: el dibujo de las filas `p..=u` tiene
/// exactamente `u - p` saltos de línea, sea cual sea la rejilla y el texto
/// (mientras ningún grafema traiga saltos de línea).
pub proof fn ley_misma_altura(
    r: Seq<Seq<bool>>,
    p: int,
    u: int,
    m: int,
    d: int,
    g: Seq<Seq<char>>,
    rep: bool,
)
    requires
        p <= u,
        g.len() > 0,
        forall|k: int| 0 <= k < g.len() ==> sin(#[trigger] g[k], '\n'),
    ensures
        cuantos(dibujo(r, p, u, m, d, g, rep), '\n') == u - p,
{
    lema_lineas_sin(r, p, u + 1, m, d, g, rep);
    lema_lineas_largo(r, p, u + 1, m, d, g, rep);
    lema_saltos_unir(lineas(r, p, u + 1, m, d, g, rep));
}

proof fn lema_celdas_ciclo(x: Seq<bool>, ini: int, g: Seq<Seq<char>>)
    requires
        g.len() > 0,
    ensures
        celdas(x, ini + g.len(), g, true) == celdas(x, ini, g, true),
    decreases x.len(),
{
    if x.len() > 0 {
        lema_celdas_ciclo(x.drop_last(), ini, g);
        let i = ini + cuenta(x.drop_last());
        vstd::arithmetic::div_mod::lemma_mod_add_multiples_vanish(i, g.len() as int);
        assert(i + g.len() == g.len() + i);
    }
}

proof fn lema_lineas_ciclo(r: Seq<Seq<bool>>, p: int, y: int, m: int, d: int, g: Seq<Seq<char>>)
    requires
        g.len() > 0,
    ensures
        lineas(r, p, y, m, d + g.len(), g, true) == lineas(r, p, y, m, d, g, true),
    decreases y - p,
{
    if y > p {
        lema_lineas_ciclo(r, p, y - 1, m, d, g);
        let ini = d + letras_antes(r, p, y - 1, m);
        lema_celdas_ciclo(desde(fila(r, y - 1), m), ini, g);
        assert(d + g.len() + letras_antes(r, p, y - 1, m) == ini + g.len());
    }
}

/// Con repetición, empezar un ciclo entero más adelante da el mismo dibujo:
/// el fotograma siguiente al último de una vuelta es otra vez el primero.
pub proof fn ley_ciclo(r: Seq<Seq<bool>>, p: int, u: int, m: int, d: int, g: Seq<Seq<char>>)
    requires
        g.len() > 0,
    ensures
        dibujo(r, p, u, m, d + g.len(), g, true) == dibujo(r, p, u, m, d, g, true),
{
    lema_lineas_ciclo(r, p, u + 1, m, d, g);
}

/// Escribe el texto en cada rejilla (fotograma), empezando en su desfase.
/// Todas se recortan con los mismos márgenes (la unión de sus figuras), así
/// que los fotogramas quedan alineados entre sí y tienen las mismas líneas.
pub fn componer(rejillas: &[Vec<Vec<bool>>], texto: &Texto, desfases: &[usize]) -> (r: Result<
    Vec<String>,
    Error,
>)
    requires
        texto.bien_formado(),
    ensures
        !hay_figura(vista_rejillas(rejillas@)) ==> r == Err::<Vec<String>, Error>(Error::SiluetaVacia),
        hay_figura(vista_rejillas(rejillas@)) ==> (r matches Ok(v) && {
            let rec = recorte_de(vista_rejillas(rejillas@));
            &&& v.len() == if rejillas@.len() < desfases@.len() {
                rejillas@.len()
            } else {
                desfases@.len()
            }
            &&& forall|k: int|
                0 <= k < v.len() ==> (#[trigger] v[k])@ == dibujo(
                    vista_rejillas(rejillas@)[k],
                    rec.0,
                    rec.1,
                    rec.2,
                    desfases@[k] as int,
                    texto.ciclo_spec(),
                    texto.repetir,
                )
            &&& forall|k: int|
                0 <= k < v.len() ==> cuantos((#[trigger] v[k])@, '\n') == rec.1 - rec.0
        }),
{
    let ghost rs = vista_rejillas(rejillas@);
    match recorte(rejillas) {
        None => Err(Error::SiluetaVacia),
        Some((p, u, m)) => {
            proof {
                lema_recorte_unico(rs, p as int, u as int, m as int);
                let (k, x) = choose|k: int, x: int| celda(rs, k, u as int, x);
                assert(u < rejillas@[k].len());
            }
            proof {
                let g = texto.ciclo_spec();
                assert forall|q: int| 0 <= q < g.len() implies sin(#[trigger] g[q], '\n') by {
                    assert(g[q] == texto.grafemas@[q]@);
                    assert forall|i: int| 0 <= i < g[q].len() implies g[q][i] != '\n' by {
                        if g[q][i] == '\n' {
                            assert(es_espacio(g[q][i]));
                        }
                    }
                }
            }
            let n = if rejillas.len() < desfases.len() {
                rejillas.len()
            } else {
                desfases.len()
            };
            let mut v: Vec<String> = Vec::new();
            let mut k: usize = 0;
            while k < n
                invariant
                    k <= n,
                    n <= rejillas@.len(),
                    n <= desfases@.len(),
                    p <= u < usize::MAX,
                    texto.bien_formado(),
                    rs == vista_rejillas(rejillas@),
                    recorte_de(rs) == (p as int, u as int, m as int),
                    v.len() == k,
                    forall|q: int|
                        0 <= q < k ==> (#[trigger] v[q])@ == dibujo(
                            rs[q],
                            p as int,
                            u as int,
                            m as int,
                            desfases@[q] as int,
                            texto.ciclo_spec(),
                            texto.repetir,
                        ),
                    forall|q: int| 0 <= q < texto.ciclo_spec().len() ==> sin(#[trigger] texto.ciclo_spec()[q], '\n'),
                    forall|q: int| 0 <= q < k ==> cuantos((#[trigger] v[q])@, '\n') == u - p,
                decreases n - k,
            {
                let cuadro = dibujar_cuadro(&rejillas[k], p, u, m, desfases[k], texto);
                proof {
                    ley_misma_altura(
                        rs[k as int],
                        p as int,
                        u as int,
                        m as int,
                        desfases@[k as int] as int,
                        texto.ciclo_spec(),
                        texto.repetir,
                    );
                }
                v.push(cadena(cuadro.as_slice()));
                k = k + 1;
            }
            Ok(v)
        },
    }
}

/// Copia de una rejilla.
pub fn copiar_rejilla(rejilla: &[Vec<bool>]) -> (r: Vec<Vec<bool>>)
    ensures
        vista_rejilla(r@) == vista_rejilla(rejilla@),
{
    let mut r: Vec<Vec<bool>> = Vec::new();
    let mut y: usize = 0;
    while y < rejilla.len()
        invariant
            y <= rejilla@.len(),
            r@.len() == y,
            forall|q: int| 0 <= q < y ==> (#[trigger] r@[q])@ == rejilla@[q]@,
        decreases rejilla.len() - y,
    {
        let f = &rejilla[y];
        let mut g: Vec<bool> = Vec::new();
        let mut x: usize = 0;
        while x < f.len()
            invariant
                x <= f@.len(),
                g@ == f@.take(x as int),
            decreases f.len() - x,
        {
            g.push(f[x]);
            assert(f@.take(x + 1) =~= f@.take(x as int).push(f@[x as int]));
            x = x + 1;
        }
        assert(f@.take(f.len() as int) =~= f@);
        r.push(g);
        y = y + 1;
    }
    assert(vista_rejilla(r@) =~= vista_rejilla(rejilla@));
    r
}

/// Escribe el texto (por grafemas, espacios según `espacios`) en las celdas
/// de figura, fila a fila. Recorta filas vacías y el margen izquierdo común.
pub fn rellenar(rejilla: &[Vec<bool>], texto: &str, repetir: bool, espacios: Espacios) -> (r:
    Result<String, Error>)
    ensures
        en_blanco(texto@) ==> r == Err::<String, Error>(Error::TextoVacio),
        !en_blanco(texto@) && !hay_figura(seq![vista_rejilla(rejilla@)]) ==> r == Err::<
            String,
            Error,
        >(Error::SiluetaVacia),
        !en_blanco(texto@) && hay_figura(seq![vista_rejilla(rejilla@)]) ==> (r matches Ok(s) && {
            let rec = recorte_de(seq![vista_rejilla(rejilla@)]);
            s@ == dibujo(
                vista_rejilla(rejilla@),
                rec.0,
                rec.1,
                rec.2,
                0,
                ciclo_de(texto@, espacios, repetir),
                repetir,
            )
        }),
{
    let texto = match Texto::nuevo(texto, espacios, repetir) {
        Err(e) => return Err(e),
        Ok(t) => t,
    };
    let mut una: Vec<Vec<Vec<bool>>> = Vec::new();
    una.push(copiar_rejilla(rejilla));
    assert(vista_rejillas(una@) =~= seq![vista_rejilla(rejilla@)]);
    let mut desfases: Vec<usize> = Vec::new();
    desfases.push(0);
    match componer(una.as_slice(), &texto, desfases.as_slice()) {
        Err(e) => Err(e),
        Ok(mut fotos) => {
            assert(fotos.len() == 1);
            Ok(fotos.remove(0))
        },
    }
}

} // verus!
