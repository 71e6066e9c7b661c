//! Resumen de una rejilla para diseñar el texto de antemano: capacidad,
//! letras por fila, tramos y la plantilla con `#` en cada celda de figura.

use vstd::prelude::*;

use crate::composicion::{
    celda, celdas, copiar_rejilla, cuantos, cuenta, desde, dibujo, es_recorte, fila, hay_figura,
    lema_cuantos_concat, lema_letras_antes_crece, lema_lineas_largo, lema_recorte_unico,
    lema_unir_push, letras_antes, lineas, recorte, recorte_de, unir, vista_rejilla, vista_rejillas,
};
use crate::texto::{cadena, es_espacio, espacio, grafema_de, sin_espacio_final};
use crate::Error;

verus! {

/// Suma de una secuencia de números.
pub open spec fn suma(s: Seq<usize>) -> int
    decreases s.len(),
{
    if s.len() == 0 {
        0
    } else {
        suma(s.drop_last()) + s.last()
    }
}

/// Largos de los tramos continuos de celdas de figura de una fila, en orden.
pub open spec fn tramos_fila(f: Seq<bool>) -> Seq<nat>
    decreases f.len(),
{
    if f.len() == 0 {
        seq![]
    } else {
        let t = tramos_fila(f.drop_last());
        if !f.last() {
            t
        } else if f.len() >= 2 && f[f.len() - 2] {
            t.update(t.len() - 1, t.last() + 1)
        } else {
            t.push(1)
        }
    }
}

/// Largos de los tramos de las filas `p..y`, fila a fila.
pub open spec fn tramos_filas(r: Seq<Seq<bool>>, p: int, y: int) -> Seq<nat>
    decreases y - p,
{
    if y <= p {
        seq![]
    } else {
        tramos_filas(r, p, y - 1) + tramos_fila(r[y - 1])
    }
}

/// El menor de una secuencia (0 si está vacía).
pub open spec fn minimo(s: Seq<nat>) -> nat
    decreases s.len(),
{
    if s.len() == 0 {
        0
    } else if s.len() == 1 {
        s[0]
    } else {
        let m = minimo(s.drop_last());
        if s.last() < m {
            s.last()
        } else {
            m
        }
    }
}

/// El mayor de una secuencia (0 si está vacía).
pub open spec fn maximo(s: Seq<nat>) -> nat
    decreases s.len(),
{
    if s.len() == 0 {
        0
    } else {
        let m = maximo(s.drop_last());
        if s.last() > m {
            s.last()
        } else {
            m
        }
    }
}

/// Una fila de la plantilla: `#` en cada celda de figura, espacio en las
/// demás, desde el margen y sin espacios al final.
pub open spec fn linea_plantilla(f: Seq<bool>) -> Seq<char> {
    sin_espacio_final(f.map_values(|b: bool| if b { '#' } else { ' ' }))
}

/// Las líneas de la plantilla de las filas `p..y`.
pub open spec fn lineas_plantilla(r: Seq<Seq<bool>>, p: int, y: int, m: int) -> Seq<Seq<char>>
    decreases y - p,
{
    if y <= p {
        seq![]
    } else {
        lineas_plantilla(r, p, y - 1, m).push(linea_plantilla(desde(r[y - 1], m)))
    }
}

/// La plantilla de la rejilla recortada a `p..=u` y al margen `m`.
pub open spec fn plantilla_de(r: Seq<Seq<bool>>, p: int, u: int, m: int) -> Seq<char> {
    unir(lineas_plantilla(r, p, u + 1, m))
}

/// Celdas de figura de toda la rejilla.
pub open spec fn cuenta_rejilla(r: Seq<Seq<bool>>) -> nat
    decreases r.len(),
{
    if r.len() == 0 {
        0
    } else {
        cuenta_rejilla(r.drop_last()) + cuenta(r.last())
    }
}

/// Resumen de la silueta a un ancho dado, para diseñar el texto de antemano.
#[derive(Debug)]
pub struct Analisis {
    pub ancho: usize,
    pub filas: usize,
    /// Capacidad total en letras (los espacios también ocupan una celda).
    pub letras: usize,
    pub por_fila: Vec<usize>,
    /// Tramos continuos de celdas: los huecos entre tramos parten palabras.
    pub tramos: usize,
    pub tramo_min: usize,
    pub tramo_max: usize,
    /// Forma con `#` en cada celda que recibirá una letra.
    pub plantilla: String,
}

impl Analisis {
    /// Palabras aproximadas, suponiendo ~5 letras + 1 espacio por palabra.
    pub fn palabras_aprox(&self) -> (n: usize)
        ensures
            n == self.letras / 6,
    {
        self.letras / 6
    }
}

/// Primera fila, última fila y margen izquierdo común de las filas con
/// figura de una rejilla.
pub fn recortar(rejilla: &[Vec<bool>]) -> (r: Result<(usize, usize, usize), Error>)
    ensures
        !hay_figura(seq![vista_rejilla(rejilla@)]) ==> r == Err::<(usize, usize, usize), Error>(
            Error::SiluetaVacia,
        ),
        hay_figura(seq![vista_rejilla(rejilla@)]) ==> (r matches Ok((p, u, m)) && recorte_de(
            seq![vista_rejilla(rejilla@)],
        ) == (p as int, u as int, m as int) && es_recorte(
            seq![vista_rejilla(rejilla@)],
            p as int,
            u as int,
            m as int,
        )),
{
    let mut una: Vec<Vec<Vec<bool>>> = Vec::new();
    una.push(copiar_rejilla(rejilla));
    assert(vista_rejillas(una@) =~= seq![vista_rejilla(rejilla@)]);
    match recorte(una.as_slice()) {
        None => Err(Error::SiluetaVacia),
        Some((p, u, m)) => {
            proof {
                lema_recorte_unico(seq![vista_rejilla(rejilla@)], p as int, u as int, m as int);
            }
            Ok((p, u, m))
        },
    }
}

/// Celdas de figura de las filas `p..y`.
pub open spec fn cuenta_filas(r: Seq<Seq<bool>>, p: int, y: int) -> nat
    decreases y - p,
{
    if y <= p {
        0
    } else {
        cuenta_filas(r, p, y - 1) + cuenta(r[y - 1])
    }
}

proof fn lema_cuenta_filas_partir(r: Seq<Seq<bool>>, p: int, y: int)
    requires
        0 <= p <= y,
    ensures
        cuenta_filas(r, 0, y) == cuenta_filas(r, 0, p) + cuenta_filas(r, p, y),
    decreases y - p,
{
    if y > p {
        lema_cuenta_filas_partir(r, p, y - 1);
    }
}

proof fn lema_cuenta_rejilla(r: Seq<Seq<bool>>)
    ensures
        cuenta_filas(r, 0, r.len() as int) == cuenta_rejilla(r),
    decreases r.len(),
{
    if r.len() > 0 {
        lema_cuenta_rejilla(r.drop_last());
        lema_cuenta_filas_iguales(r.drop_last(), r, 0, r.len() - 1);
    }
}

proof fn lema_cuenta_filas_iguales(a: Seq<Seq<bool>>, b: Seq<Seq<bool>>, p: int, y: int)
    requires
        0 <= p <= y <= a.len(),
        y <= b.len(),
        forall|q: int| p <= q < y ==> a[q] == b[q],
    ensures
        cuenta_filas(a, p, y) == cuenta_filas(b, p, y),
    decreases y - p,
{
    if y > p {
        lema_cuenta_filas_iguales(a, b, p, y - 1);
    }
}

/// Celdas de figura de una fila.
pub fn contar(f: &Vec<bool>) -> (n: usize)
    ensures
        n == cuenta(f@),
{
    let mut n: usize = 0;
    let mut x: usize = 0;
    while x < f.len()
        invariant
            x <= f@.len(),
            n == cuenta(f@.take(x as int)),
            n <= x,
        decreases f.len() - x,
    {
        assert(f@.take(x + 1).drop_last() =~= f@.take(x as int));
        if f[x] {
            n = n + 1;
        }
        x = x + 1;
    }
    assert(f@.take(f.len() as int) =~= f@);
    n
}

/// Los largos de una secuencia de tramos, como números naturales.
pub open spec fn naturales(s: Seq<usize>) -> Seq<nat> {
    s.map_values(|v: usize| v as nat)
}

proof fn lema_tramos_fila_cota(f: Seq<bool>)
    ensures
        forall|i: int| 0 <= i < tramos_fila(f).len() ==> #[trigger] tramos_fila(f)[i] <= f.len(),
        f.len() > 0 && f.last() ==> tramos_fila(f).len() > 0,
    decreases f.len(),
{
    if f.len() > 0 {
        let d = f.drop_last();
        let t = tramos_fila(d);
        lema_tramos_fila_cota(d);
        if f.last() && f.len() >= 2 && f[f.len() - 2] {
            assert(d.last() == f[f.len() - 2]);
            let t2 = t.update(t.len() - 1, t.last() + 1);
            assert(tramos_fila(f) == t2);
            assert forall|i: int| 0 <= i < t2.len() implies #[trigger] t2[i] <= f.len() by {
                assert(t[i] <= d.len());
            }
        } else if f.last() {
            let t2 = t.push(1);
            assert(tramos_fila(f) == t2);
            assert forall|i: int| 0 <= i < t2.len() implies #[trigger] t2[i] <= f.len() by {
                if i < t.len() {
                    assert(t[i] <= d.len());
                }
            }
        } else {
            assert forall|i: int| 0 <= i < t.len() implies #[trigger] t[i] <= f.len() by {
                assert(t[i] <= d.len());
            }
        }
    }
}

/// Añade a `out` los largos de los tramos de la fila `f`.
fn anadir_tramos(f: &Vec<bool>, out: &mut Vec<usize>)
    ensures
        naturales(final(out)@) == naturales(old(out)@) + tramos_fila(f@),
{
    let ghost inicio = naturales(out@);
    let mut x: usize = 0;
    while x < f.len()
        invariant
            x <= f@.len(),
            out@.len() >= inicio.len(),
            naturales(out@) == inicio + tramos_fila(f@.take(x as int)),
        decreases f.len() - x,
    {
        let ghost previa = f@.take(x as int);
        assert(f@.take(x + 1).drop_last() =~= previa);
        proof {
            lema_tramos_fila_cota(previa);
        }
        if f[x] {
            if x >= 1 && f[x - 1] {
                assert(previa.last() == f@[x - 1]);
                let n = out.len();
                let ultimo = out[n - 1];
                let ghost t0 = tramos_fila(previa);
                assert(t0.len() > 0);
                assert(naturales(out@).len() == out@.len());
                assert(out@.len() == inicio.len() + t0.len());
                assert(naturales(out@)[n - 1] == ultimo as nat);
                assert((inicio + t0)[n - 1] == t0.last());
                assert(ultimo as nat == tramos_fila(previa).last());
                let ghost t = tramos_fila(previa);
                assert(f@.take(x + 1)[x - 1] == f@[x - 1]);
                assert(f@.take(x + 1).last() == f@[x as int]);
                assert(tramos_fila(f@.take(x + 1)) == t.update(t.len() - 1, t.last() + 1));
                let ghost old_out = out@;
                out.set(n - 1, ultimo + 1);
                assert(naturales(out@) =~= naturales(old_out).update(n - 1, (ultimo + 1) as nat));
                assert(naturales(out@) =~= inicio + t.update(t.len() - 1, t.last() + 1));
            } else {
                let ghost t = tramos_fila(previa);
                if x >= 1 {
                    assert(f@.take(x + 1)[x - 1] == f@[x - 1]);
                }
                assert(f@.take(x + 1).last() == f@[x as int]);
                assert(tramos_fila(f@.take(x + 1)) == t.push(1));
                let ghost old_out = out@;
                out.push(1);
                assert(naturales(out@) =~= naturales(old_out).push(1nat));
                assert(naturales(out@) =~= inicio + tramos_fila(f@.take(x + 1)));
            }
        } else {
            assert(naturales(out@) =~= inicio + tramos_fila(f@.take(x + 1)));
        }
        x = x + 1;
    }
    assert(f@.take(f.len() as int) =~= f@);
}

fn minimo_exec(v: &Vec<usize>) -> (m: usize)
    ensures
        m == minimo(naturales(v@)),
{
    let mut m: usize = 0;
    let mut i: usize = 0;
    while i < v.len()
        invariant
            i <= v@.len(),
            m == minimo(naturales(v@.take(i as int))),
        decreases v.len() - i,
    {
        assert(naturales(v@.take(i + 1)).drop_last() =~= naturales(v@.take(i as int)));
        if i == 0 || v[i] < m {
            m = v[i];
        }
        i = i + 1;
    }
    assert(v@.take(v.len() as int) =~= v@);
    m
}

fn maximo_exec(v: &Vec<usize>) -> (m: usize)
    ensures
        m == maximo(naturales(v@)),
{
    let mut m: usize = 0;
    let mut i: usize = 0;
    while i < v.len()
        invariant
            i <= v@.len(),
            m == maximo(naturales(v@.take(i as int))),
        decreases v.len() - i,
    {
        assert(naturales(v@.take(i + 1)).drop_last() =~= naturales(v@.take(i as int)));
        if v[i] > m {
            m = v[i];
        }
        i = i + 1;
    }
    assert(v@.take(v.len() as int) =~= v@);
    m
}

/// Una fila de la plantilla desde el margen `m`.
fn fila_plantilla(f: &Vec<bool>, m: usize) -> (r: Vec<char>)
    requires
        m <= f@.len(),
    ensures
        r@ == linea_plantilla(f@.skip(m as int)),
{
    let ghost c = f@.skip(m as int);
    let mut r: Vec<char> = Vec::new();
    let mut x: usize = m;
    while x < f.len()
        invariant
            m <= x <= f@.len(),
            c == f@.skip(m as int),
            r@ == c.take(x - m).map_values(|b: bool| if b { '#' } else { ' ' }),
        decreases f.len() - x,
    {
        if f[x] {
            r.push('#');
        } else {
            r.push(' ');
        }
        assert(c.take(x - m + 1) =~= c.take(x - m).push(f@[x as int]));
        x = x + 1;
        assert(r@ =~= c.take(x - m).map_values(|b: bool| if b { '#' } else { ' ' }));
    }
    assert(c.take(x - m) =~= c);
    let mut fin: usize = r.len();
    assert(r@.take(r.len() as int) =~= r@);
    while fin > 0 && espacio(r[fin - 1])
        invariant
            fin <= r.len(),
            sin_espacio_final(r@.take(fin as int)) == sin_espacio_final(r@),
        decreases fin,
    {
        assert(r@.take(fin as int).drop_last() =~= r@.take(fin - 1));
        fin = fin - 1;
    }
    r.truncate(fin);
    r
}

proof fn lema_cuenta_concat(a: Seq<bool>, b: Seq<bool>)
    ensures
        cuenta(a + b) == cuenta(a) + cuenta(b),
    decreases b.len(),
{
    if b.len() == 0 {
        assert(a + b =~= a);
    } else {
        lema_cuenta_concat(a, b.drop_last());
        assert((a + b).drop_last() =~= a + b.drop_last());
    }
}

proof fn lema_cuenta_cero(a: Seq<bool>)
    requires
        forall|j: int| 0 <= j < a.len() ==> !a[j],
    ensures
        cuenta(a) == 0,
    decreases a.len(),
{
    if a.len() > 0 {
        lema_cuenta_cero(a.drop_last());
    }
}

/// Sin figura antes del margen, contar desde el margen es contar la fila.
proof fn lema_cuenta_desde(f: Seq<bool>, m: int)
    requires
        0 <= m <= f.len(),
        forall|j: int| 0 <= j < m ==> !f[j],
    ensures
        cuenta(desde(f, m)) == cuenta(f),
{
    lema_cuenta_concat(f.take(m), f.skip(m));
    assert(f.take(m) + f.skip(m) =~= f);
    lema_cuenta_cero(f.take(m));
}

proof fn lema_cuantos_marcas(x: Seq<bool>)
    ensures
        cuantos(x.map_values(|b: bool| if b { '#' } else { ' ' }), '#') == cuenta(x),
        cuantos(x.map_values(|b: bool| if b { '#' } else { ' ' }), '\n') == 0,
    decreases x.len(),
{
    if x.len() > 0 {
        lema_cuantos_marcas(x.drop_last());
        assert(x.map_values(|b: bool| if b { '#' } else { ' ' }).drop_last() =~= x.drop_last().map_values(
            |b: bool| if b { '#' } else { ' ' },
        ));
    }
}

proof fn lema_cuantos_sin_espacio_final(s: Seq<char>, c: char)
    requires
        !es_espacio(c),
    ensures
        cuantos(sin_espacio_final(s), c) == cuantos(s, c),
    decreases s.len(),
{
    if s.len() > 0 && es_espacio(s.last()) {
        lema_cuantos_sin_espacio_final(s.drop_last(), c);
    }
}

pub(crate) proof fn lema_cuantos_linea_plantilla(x: Seq<bool>)
    ensures
        cuantos(linea_plantilla(x), '#') == cuenta(x),
        cuantos(linea_plantilla(x), '\n') == 0,
{
    lema_cuantos_marcas(x);
    let s = x.map_values(|b: bool| if b { '#' } else { ' ' });
    assert(!es_espacio('#'));
    assert(es_espacio('\n'));
    lema_cuantos_sin_espacio_final(s, '#');
    lema_cuantos_sin_espacio_final_salto(s);
}

proof fn lema_cuantos_sin_espacio_final_salto(s: Seq<char>)
    requires
        cuantos(s, '\n') == 0,
    ensures
        cuantos(sin_espacio_final(s), '\n') == 0,
    decreases s.len(),
{
    if s.len() > 0 && es_espacio(s.last()) {
        lema_cuantos_sin_espacio_final_salto(s.drop_last());
    }
}

/// Resumen de la rejilla a `columnas` de ancho: filas recortadas, letras por
/// fila, tramos y plantilla.
/// Se puede analizar la rejilla `rv`: sus celdas de figura caben en `usize`
/// y las filas del recorte llegan al menos hasta el margen.
pub open spec fn analizable(rv: Seq<Seq<bool>>) -> bool {
    &&& cuenta_rejilla(rv) <= usize::MAX
    &&& hay_figura(seq![rv]) ==> ({
        let rec = recorte_de(seq![rv]);
        forall|y: int| 0 <= y && rec.0 <= y <= rec.1 && y < rv.len() ==> rec.2 <= (#[trigger] rv[y]).len()
    })
}

/// `a` es el análisis de la rejilla `rv` (con figura) a `columnas` de
/// ancho: las filas del recorte, las letras de cada una y en total, los
/// tramos y la plantilla (un `#` por celda de figura, una línea por fila).
pub open spec fn es_analisis(a: Analisis, rv: Seq<Seq<bool>>, columnas: usize) -> bool {
    let (p, u, m) = recorte_de(seq![rv]);
    &&& a.ancho == columnas
    &&& a.filas == u - p + 1
    &&& a.por_fila@.len() == a.filas
    &&& forall|i: int| 0 <= i < a.filas ==> #[trigger] a.por_fila@[i] == cuenta(rv[p + i])
    &&& a.letras == suma(a.por_fila@)
    &&& a.tramos == tramos_filas(rv, p, u + 1).len()
    &&& a.tramo_min == minimo(tramos_filas(rv, p, u + 1))
    &&& a.tramo_max == maximo(tramos_filas(rv, p, u + 1))
    &&& a.plantilla@ == plantilla_de(rv, p, u, m)
    &&& cuantos(a.plantilla@, '#') == a.letras
    &&& cuantos(a.plantilla@, '\n') + 1 == a.filas
}

#[verifier::spinoff_prover]
pub fn analizar(rejilla: &[Vec<bool>], columnas: usize) -> (r: Result<Analisis, Error>)
    requires
        analizable(vista_rejilla(rejilla@)),
    ensures
        !hay_figura(seq![vista_rejilla(rejilla@)]) ==> r == Err::<Analisis, Error>(
            Error::SiluetaVacia,
        ),
        hay_figura(seq![vista_rejilla(rejilla@)]) ==> (r matches Ok(a) && es_analisis(
            a,
            vista_rejilla(rejilla@),
            columnas,
        )),
{
    proof {
        let rv = vista_rejilla(rejilla@);
        if hay_figura(seq![rv]) {
            let rec = recorte_de(seq![rv]);
            assert forall|y: int| 0 <= y && rec.0 <= y <= rec.1 && y < rejilla@.len() implies rec.2 <= (
            #[trigger] rejilla@[y])@.len() by {
                assert(rv[y] == rejilla@[y]@);
            }
        }
    }
    let ghost rv = vista_rejilla(rejilla@);
    let (p, u, m) = match recortar(rejilla) {
        Err(e) => return Err(e),
        Ok(rec) => rec,
    };
    proof {
        let (k, x) = choose|k: int, x: int| celda(seq![rv], k, u as int, x);
        assert(u < rejilla@.len());
        lema_cuenta_rejilla(rv);
        lema_cuenta_filas_partir(rv, p as int, u + 1);
        lema_cuenta_filas_partir(rv, u + 1, rv.len() as int);
    }
    let mut por_fila: Vec<usize> = Vec::new();
    let mut tramos: Vec<usize> = Vec::new();
    let mut plantilla: Vec<char> = Vec::new();
    let mut letras: usize = 0;
    let mut y: usize = p;
    while y <= u
        invariant
            p <= y <= u + 1,
            u < rejilla@.len(),
            rv == vista_rejilla(rejilla@),
            recorte_de(seq![rv]) == (p as int, u as int, m as int),
            forall|q: int| p <= q <= u ==> m <= (#[trigger] rejilla@[q])@.len(),
            cuenta_filas(rv, p as int, u + 1) <= usize::MAX,
            por_fila@.len() == y - p,
            forall|i: int| 0 <= i < y - p ==> #[trigger] por_fila@[i] == cuenta(rv[p + i]),
            letras == suma(por_fila@),
            letras == cuenta_filas(rv, p as int, y as int),
            naturales(tramos@) == tramos_filas(rv, p as int, y as int),
            plantilla@ == unir(lineas_plantilla(rv, p as int, y as int, m as int)),
            es_recorte(seq![rv], p as int, u as int, m as int),
            cuantos(plantilla@, '#') == letras,
            y > p ==> cuantos(plantilla@, '\n') + 1 == y - p,
        decreases u + 1 - y,
    {
        let f = &rejilla[y];
        assert(rv[y as int] == f@);
        let n = contar(f);
        proof {
            lema_cuenta_filas_partir(rv, p as int, u + 1);
            lema_cuenta_filas_parcial(rv, p as int, y + 1, u + 1);
        }
        assert(por_fila@.push(n).drop_last() =~= por_fila@);
        por_fila.push(n);
        letras = letras + n;
        anadir_tramos(f, &mut tramos);
        let linea = fila_plantilla(f, m);
        proof {
            assert(desde(rv[y as int], m as int) == f@.skip(m as int));
            lema_lineas_plantilla_largo(rv, p as int, y as int, m as int);
            let ls = lineas_plantilla(rv, p as int, y as int, m as int);
            assert(ls.push(linea@).drop_last() =~= ls);
        }
        proof {
            assert forall|j: int| 0 <= j < m implies !f@[j] by {
                if f@[j] {
                    assert(celda(seq![rv], 0, y as int, j));
                }
            }
            lema_cuenta_desde(f@, m as int);
            lema_cuantos_linea_plantilla(desde(rv[y as int], m as int));
        }
        let ghost previa = plantilla@;
        let ghost letras_previas = (letras - n) as int;
        anadir_linea(&mut plantilla, y > p, &linea);
        proof {
            lema_paso_plantilla(previa, y > p, linea@, letras_previas, n as int, y - p);
        }
        y = y + 1;
    }
    let n_tramos = tramos.len();
    let tramo_min = minimo_exec(&tramos);
    let tramo_max = maximo_exec(&tramos);
    proof {
        assert(naturales(tramos@).len() == tramos@.len());
    }
    Ok(
        Analisis {
            ancho: columnas,
            filas: u - p + 1,
            letras,
            por_fila,
            tramos: n_tramos,
            tramo_min,
            tramo_max,
            plantilla: cadena(plantilla.as_slice()),
        },
    )
}

/// Añade `linea` a `v`, tras un salto de línea si `salto`.
fn anadir_linea(v: &mut Vec<char>, salto: bool, linea: &Vec<char>)
    ensures
        final(v)@ == (if salto {
            old(v)@ + seq!['\n']
        } else {
            old(v)@
        }) + linea@,
{
    if salto {
        v.push('\n');
    }
    let ghost antes = v@;
    let mut i: usize = 0;
    while i < linea.len()
        invariant
            i <= linea@.len(),
            v@ == antes + linea@.take(i as int),
        decreases linea.len() - i,
    {
        v.push(linea[i]);
        i = i + 1;
        assert(v@ =~= antes + linea@.take(i as int));
    }
    assert(linea@.take(linea.len() as int) =~= linea@);
}

/// Tras añadir la línea de la fila `k` (contando desde 0) a la plantilla,
/// sus `'#'` son las letras hasta esa fila y sus saltos, una menos que
/// las filas.
proof fn lema_paso_plantilla(previa: Seq<char>, salto: bool, linea: Seq<char>, letras: int, n: int, k: int)
    requires
        k >= 0,
        cuantos(previa, '#') == letras,
        k > 0 ==> cuantos(previa, '\n') + 1 == k,
        k == 0 ==> previa.len() == 0,
        salto == (k > 0),
        cuantos(linea, '#') == n,
        cuantos(linea, '\n') == 0,
    ensures
        cuantos(
            (if salto {
                previa + seq!['\n']
            } else {
                previa
            }) + linea,
            '#',
        ) == letras + n,
        cuantos(
            (if salto {
                previa + seq!['\n']
            } else {
                previa
            }) + linea,
            '\n',
        ) + 1 == k + 1,
{
    lema_cuantos_linea(previa, salto, linea);
    let nueva = (if salto {
        previa + seq!['\n']
    } else {
        previa
    }) + linea;
    if k == 0 {
        assert(previa =~= Seq::<char>::empty());
        assert(cuantos(previa, '\n') == 0);
    }
}

/// Añadir una línea (tras un salto, si `salto`) suma sus `'#'` y sus
/// saltos.
proof fn lema_cuantos_linea(pl: Seq<char>, salto: bool, l: Seq<char>)
    ensures
        cuantos(
            (if salto {
                pl + seq!['\n']
            } else {
                pl
            }) + l,
            '#',
        ) == cuantos(pl, '#') + cuantos(l, '#'),
        cuantos(
            (if salto {
                pl + seq!['\n']
            } else {
                pl
            }) + l,
            '\n',
        ) == cuantos(pl, '\n') + (if salto {
            1int
        } else {
            0int
        }) + cuantos(l, '\n'),
{
    lema_cuantos_concat(pl, seq!['\n'], '#');
    lema_cuantos_concat(pl, seq!['\n'], '\n');
    lema_cuantos_concat(pl + seq!['\n'], l, '#');
    lema_cuantos_concat(pl + seq!['\n'], l, '\n');
    lema_cuantos_concat(pl, l, '#');
    lema_cuantos_concat(pl, l, '\n');
    assert(seq!['\n'].drop_last() =~= Seq::<char>::empty());
    assert(cuantos(Seq::<char>::empty(), '#') == 0);
    assert(cuantos(Seq::<char>::empty(), '\n') == 0);
    assert(cuantos(seq!['\n'], '#') == 0);
    assert(cuantos(seq!['\n'], '\n') == 1);
}

proof fn lema_cuenta_filas_parcial(r: Seq<Seq<bool>>, p: int, y: int, z: int)
    requires
        p <= y <= z,
    ensures
        cuenta_filas(r, p, y) <= cuenta_filas(r, p, z),
    decreases z - y,
{
    if y < z {
        lema_cuenta_filas_parcial(r, p, y, z - 1);
    }
}

pub(crate) proof fn lema_lineas_plantilla_largo(r: Seq<Seq<bool>>, p: int, y: int, m: int)
    requires
        p <= y,
    ensures
        lineas_plantilla(r, p, y, m).len() == y - p,
    decreases y - p,
{
    if y > p {
        lema_lineas_plantilla_largo(r, p, y - 1, m);
    }
}

/// `s` con cada `'#'` cambiado por `c`.
pub open spec fn sustituir(s: Seq<char>, c: char) -> Seq<char> {
    s.map_values(|ch: char| if ch == '#' { c } else { ch })
}

/// Cada celda de figura con el carácter `c` y las demás con un espacio.
pub open spec fn con_caracter(x: Seq<bool>, c: char) -> Seq<char> {
    x.map_values(|b: bool| if b { c } else { ' ' })
}

proof fn lema_celdas_uniformes(x: Seq<bool>, ini: int, g: Seq<Seq<char>>, rep: bool, c: char)
    requires
        forall|i: int| ini <= i < ini + cuenta(x) ==> grafema_de(g, rep, i) == seq![c],
    ensures
        celdas(x, ini, g, rep) == con_caracter(x, c),
    decreases x.len(),
{
    if x.len() > 0 {
        let previas = x.drop_last();
        lema_celdas_uniformes(previas, ini, g, rep, c);
        assert(con_caracter(x, c) =~= con_caracter(previas, c).push(
            if x.last() {
                c
            } else {
                ' '
            },
        ));
        if x.last() {
            assert(grafema_de(g, rep, ini + cuenta(previas)) == seq![c]);
        }
    }
}

proof fn lema_sin_espacio_final_sustituir(s: Seq<char>, c: char)
    requires
        !es_espacio(c),
    ensures
        sin_espacio_final(sustituir(s, c)) == sustituir(sin_espacio_final(s), c),
    decreases s.len(),
{
    if s.len() > 0 {
        assert(sustituir(s, c).drop_last() =~= sustituir(s.drop_last(), c));
        lema_sin_espacio_final_sustituir(s.drop_last(), c);
        assert(!es_espacio('#'));
    } else {
        assert(sustituir(s, c) =~= s);
    }
}

proof fn lema_unir_sustituir(ls: Seq<Seq<char>>, c: char)
    ensures
        unir(ls.map_values(|l: Seq<char>| sustituir(l, c))) == sustituir(unir(ls), c),
    decreases ls.len(),
{
    let f = |l: Seq<char>| sustituir(l, c);
    if ls.len() == 1 {
        assert(ls.map_values(f)[0] == sustituir(ls[0], c));
    } else if ls.len() > 1 {
        lema_unir_sustituir(ls.drop_last(), c);
        assert(ls.map_values(f).drop_last() =~= ls.drop_last().map_values(f));
        assert(sustituir(unir(ls.drop_last()) + seq!['\n'] + ls.last(), c) =~= sustituir(
            unir(ls.drop_last()),
            c,
        ) + seq!['\n'] + sustituir(ls.last(), c));
    } else {
        assert(sustituir(Seq::<char>::empty(), c) =~= Seq::<char>::empty());
    }
}

proof fn lema_lineas_plantilla(
    r: Seq<Seq<bool>>,
    p: int,
    y: int,
    u: int,
    m: int,
    d: int,
    g: Seq<Seq<char>>,
    rep: bool,
    c: char,
)
    requires
        0 <= p <= y <= u + 1,
        u < r.len(),
        !es_espacio(c),
        forall|i: int| d <= i < d + letras_antes(r, p, u + 1, m) ==> grafema_de(g, rep, i) == seq![c],
    ensures
        lineas(r, p, y, m, d, g, rep) == lineas_plantilla(r, p, y, m).map_values(
            |l: Seq<char>| sustituir(l, c),
        ),
    decreases y - p,
{
    let f = |l: Seq<char>| sustituir(l, c);
    if y > p {
        lema_lineas_plantilla(r, p, y - 1, u, m, d, g, rep, c);
        let x = desde(r[y - 1], m);
        let ini = d + letras_antes(r, p, y - 1, m);
        assert(fila(r, y - 1) == r[y - 1]);
        lema_letras_antes_crece(r, p, y, u + 1, m);
        lema_celdas_uniformes(x, ini, g, rep, c);
        assert(con_caracter(x, c) =~= sustituir(x.map_values(|b: bool| if b { '#' } else { ' ' }), c));
        lema_sin_espacio_final_sustituir(x.map_values(|b: bool| if b { '#' } else { ' ' }), c);
        assert(lineas_plantilla(r, p, y, m).map_values(f) =~= lineas_plantilla(
            r,
            p,
            y - 1,
            m,
        ).map_values(f).push(sustituir(linea_plantilla(x), c)));
    } else {
        assert(lineas_plantilla(r, p, y, m).map_values(f) =~= Seq::<Seq<char>>::empty());
    }
}

/// La plantilla coincide celda por celda con el dibujo: si cada celda de
/// figura recibe el mismo carácter `c` (que no sea un espacio), el dibujo es
/// la plantilla con `c` en lugar de `#`.
pub proof fn ley_plantilla_es_dibujo(
    r: Seq<Seq<bool>>,
    p: int,
    u: int,
    m: int,
    d: int,
    g: Seq<Seq<char>>,
    rep: bool,
    c: char,
)
    requires
        0 <= p <= u < r.len(),
        !es_espacio(c),
        forall|i: int| d <= i < d + letras_antes(r, p, u + 1, m) ==> grafema_de(g, rep, i) == seq![c],
    ensures
        dibujo(r, p, u, m, d, g, rep) == sustituir(plantilla_de(r, p, u, m), c),
{
    lema_lineas_plantilla(r, p, u + 1, u, m, d, g, rep, c);
    lema_unir_sustituir(lineas_plantilla(r, p, u + 1, m), c);
}

/// Ley del menor y el mayor: el menor es cota inferior de todos y el mayor
/// cota superior, y si hay alguno ambos son de la secuencia.
pub proof fn ley_minimo_maximo(s: Seq<nat>)
    ensures
        forall|i: int| 0 <= i < s.len() ==> minimo(s) <= #[trigger] s[i] <= maximo(s),
        s.len() > 0 ==> exists|i: int| 0 <= i < s.len() && s[i] == minimo(s),
        s.len() > 0 ==> exists|i: int| 0 <= i < s.len() && s[i] == maximo(s),
    decreases s.len(),
{
    if s.len() > 0 {
        let d = s.drop_last();
        ley_minimo_maximo(d);
        assert forall|i: int| 0 <= i < s.len() implies minimo(s) <= #[trigger] s[i] <= maximo(s) by {
            if i < s.len() - 1 {
                assert(s[i] == d[i]);
            }
        }
        if s.len() == 1 {
            assert(s[0] == minimo(s));
            assert(s[0] == maximo(s));
        } else {
            if s.last() < minimo(d) {
                assert(s[s.len() - 1] == minimo(s));
            } else {
                let i = choose|i: int| 0 <= i < d.len() && d[i] == minimo(d);
                assert(s[i] == d[i]);
            }
        }
        if s.last() > maximo(d) {
            assert(s[s.len() - 1] == maximo(s));
        } else if d.len() > 0 {
            let j = choose|j: int| 0 <= j < d.len() && d[j] == maximo(d);
            assert(s[j] == d[j]);
        } else {
            assert(s[0] == maximo(s));
        }
    }
}

/// Ley de los tramos del análisis: `tramo_min` y `tramo_max` acotan el largo
/// de cada tramo del recorte y, si hay tramos, son el largo de alguno (el
/// más corto y el más largo).
pub proof fn ley_tramos_analisis(a: Analisis, rv: Seq<Seq<bool>>, columnas: usize)
    requires
        es_analisis(a, rv, columnas),
    ensures
        ({
            let (p, u, m) = recorte_de(seq![rv]);
            let t = tramos_filas(rv, p, u + 1);
            &&& forall|i: int| 0 <= i < t.len() ==> a.tramo_min <= #[trigger] t[i] <= a.tramo_max
            &&& t.len() > 0 ==> exists|i: int| 0 <= i < t.len() && t[i] == a.tramo_min
            &&& t.len() > 0 ==> exists|i: int| 0 <= i < t.len() && t[i] == a.tramo_max
        }),
{
    let (p, u, m) = recorte_de(seq![rv]);
    ley_minimo_maximo(tramos_filas(rv, p, u + 1));
}

} // verus!
