//! De la máscara a la rejilla de celdas, y el ancho en el que cabe un texto.
//!
//! Los cortes de las celdas (qué filas y columnas de píxeles caen en cada una)
//! dependen de la proporción de las celdas y se calculan fuera; aquí se
//! decide qué celdas son figura y cuántas letras caben.

use vstd::prelude::*;

use crate::analisis::cuenta_rejilla;
use crate::composicion::{cuenta, vista_rejilla};
use crate::mascara::Mascara;
use crate::{Ancho, Error, ANCHO_AUTO_MAX};

verus! {

/// Píxeles de la fila `y`, columnas `xa..xb`, que valen `v`.
pub open spec fn cuenta_tramo(m: Mascara, y: int, xa: int, xb: int, v: bool) -> nat
    decreases xb - xa,
{
    if xb <= xa {
        0
    } else {
        cuenta_tramo(m, y, xa, xb - 1, v) + if m.en(xb - 1, y) == v {
            1nat
        } else {
            0nat
        }
    }
}

/// Píxeles del rectángulo de filas `ya..yb` y columnas `xa..xb` que valen `v`.
pub open spec fn cuenta_celda(m: Mascara, ya: int, yb: int, xa: int, xb: int, v: bool) -> nat
    decreases yb - ya,
{
    if yb <= ya {
        0
    } else {
        cuenta_celda(m, ya, yb - 1, xa, xb, v) + cuenta_tramo(m, yb - 1, xa, xb, v)
    }
}

/// Una celda es figura si al menos la mitad de sus píxeles lo son: tiene
/// tantos de figura como de fondo, o más.
pub open spec fn celda_llena(m: Mascara, ya: int, yb: int, xa: int, xb: int) -> bool {
    cuenta_celda(m, ya, yb, xa, xb, true) >= cuenta_celda(m, ya, yb, xa, xb, false)
}

/// Un corte `a..b` no vacío dentro de `0..max`.
pub open spec fn corte_valido(c: (usize, usize), max: int) -> bool {
    c.0 < c.1 <= max
}

proof fn lema_tramo_suma(m: Mascara, y: int, xa: int, xb: int)
    requires
        xa <= xb,
    ensures
        cuenta_tramo(m, y, xa, xb, true) + cuenta_tramo(m, y, xa, xb, false) == xb - xa,
    decreases xb - xa,
{
    if xb > xa {
        lema_tramo_suma(m, y, xa, xb - 1);
    }
}

proof fn lema_celda_suma(m: Mascara, ya: int, yb: int, xa: int, xb: int)
    requires
        ya <= yb,
        xa <= xb,
    ensures
        cuenta_celda(m, ya, yb, xa, xb, true) + cuenta_celda(m, ya, yb, xa, xb, false) == (yb
            - ya) * (xb - xa),
    decreases yb - ya,
{
    if yb > ya {
        lema_celda_suma(m, ya, yb - 1, xa, xb);
        lema_tramo_suma(m, yb - 1, xa, xb);
        assert((yb - ya) * (xb - xa) == (yb - 1 - ya) * (xb - xa) + (xb - xa)) by (nonlinear_arith);
    } else {
        assert((yb - ya) * (xb - xa) == 0) by (nonlinear_arith)
            requires
                yb == ya,
        ;
    }
}

/// ¿Es figura la celda de filas `ya..yb` y columnas `xa..xb`?
fn celda_de(m: &Mascara, ya: usize, yb: usize, xa: usize, xb: usize) -> (b: bool)
    requires
        m.bien_formada(),
        ya < yb <= m.alto,
        xa < xb <= m.ancho,
    ensures
        b == celda_llena(*m, ya as int, yb as int, xa as int, xb as int),
{
    let ghost w = m.ancho as int;
    let ghost h = m.alto as int;
    let n = m.datos.len();
    let mut llenos: usize = 0;
    let mut vacios: usize = 0;
    let mut y = ya;
    while y < yb
        invariant
            m.bien_formada(),
            ya <= y <= yb <= m.alto,
            xa < xb <= m.ancho,
            w == m.ancho,
            h == m.alto,
            n == w * h,
            llenos == cuenta_celda(*m, ya as int, y as int, xa as int, xb as int, true),
            vacios == cuenta_celda(*m, ya as int, y as int, xa as int, xb as int, false),
            llenos + vacios == (y - ya) * (xb - xa),
        decreases yb - y,
    {
        let mut x = xa;
        while x < xb
            invariant
                m.bien_formada(),
                ya <= y < yb <= m.alto,
                xa <= x <= xb <= m.ancho,
                w == m.ancho,
                h == m.alto,
                n == w * h,
                llenos == cuenta_celda(*m, ya as int, y as int, xa as int, xb as int, true)
                    + cuenta_tramo(*m, y as int, xa as int, x as int, true),
                vacios == cuenta_celda(*m, ya as int, y as int, xa as int, xb as int, false)
                    + cuenta_tramo(*m, y as int, xa as int, x as int, false),
                llenos + vacios == (y - ya) * (xb - xa) + (x - xa),
            decreases xb - x,
        {
            proof {
                assert((y - ya) * (xb - xa) + (x - xa) < (y + 1 - ya) * (xb - xa)) by (nonlinear_arith)
                    requires
                        x < xb,
                ;
                assert((y + 1 - ya) * (xb - xa) <= h * w) by (nonlinear_arith)
                    requires
                        0 <= y + 1 - ya <= h,
                        0 <= xb - xa <= w,
                ;
                assert(h * w == w * h) by (nonlinear_arith);
            }
            if m.get(x, y) {
                llenos = llenos + 1;
            } else {
                vacios = vacios + 1;
            }
            x = x + 1;
        }
        proof {
            lema_tramo_suma(*m, y as int, xa as int, xb as int);
            assert((y + 1 - ya) * (xb - xa) == (y - ya) * (xb - xa) + (xb - xa)) by (nonlinear_arith);
        }
        y = y + 1;
    }
    llenos >= vacios
}

/// Reduce la máscara a una rejilla: la fila `f` junta los píxeles de las
/// filas `filas[f]` y la columna `c` los de las columnas `columnas[c]`; una
/// celda es figura si al menos la mitad de sus píxeles lo son.
pub fn rejilla_con(m: &Mascara, filas: &[(usize, usize)], columnas: &[(usize, usize)]) -> (r: Vec<
    Vec<bool>,
>)
    requires
        m.bien_formada(),
        forall|f: int| 0 <= f < filas@.len() ==> corte_valido(#[trigger] filas@[f], m.alto as int),
        forall|c: int|
            0 <= c < columnas@.len() ==> corte_valido(#[trigger] columnas@[c], m.ancho as int),
    ensures
        r@.len() == filas@.len(),
        forall|f: int| 0 <= f < r@.len() ==> (#[trigger] r@[f])@.len() == columnas@.len(),
        forall|f: int, c: int|
            0 <= f < r@.len() && 0 <= c < columnas@.len() ==> #[trigger] r@[f]@[c] == celda_llena(
                *m,
                filas@[f].0 as int,
                filas@[f].1 as int,
                columnas@[c].0 as int,
                columnas@[c].1 as int,
            ),
{
    let mut r: Vec<Vec<bool>> = Vec::new();
    let mut f: usize = 0;
    while f < filas.len()
        invariant
            m.bien_formada(),
            f <= filas@.len(),
            forall|f: int| 0 <= f < filas@.len() ==> corte_valido(#[trigger] filas@[f], m.alto as int),
            forall|c: int|
                0 <= c < columnas@.len() ==> corte_valido(#[trigger] columnas@[c], m.ancho as int),
            r@.len() == f,
            forall|g: int| 0 <= g < f ==> (#[trigger] r@[g])@.len() == columnas@.len(),
            forall|g: int, c: int|
                0 <= g < f && 0 <= c < columnas@.len() ==> #[trigger] r@[g]@[c] == celda_llena(
                    *m,
                    filas@[g].0 as int,
                    filas@[g].1 as int,
                    columnas@[c].0 as int,
                    columnas@[c].1 as int,
                ),
        decreases filas.len() - f,
    {
        let (ya, yb) = filas[f];
        assert(corte_valido(filas@[f as int], m.alto as int));
        let mut fila: Vec<bool> = Vec::new();
        let mut c: usize = 0;
        while c < columnas.len()
            invariant
                m.bien_formada(),
                c <= columnas@.len(),
                ya < yb <= m.alto,
                forall|c: int|
                    0 <= c < columnas@.len() ==> corte_valido(#[trigger] columnas@[c], m.ancho as int),
                fila@.len() == c,
                forall|k: int|
                    0 <= k < c ==> #[trigger] fila@[k] == celda_llena(
                        *m,
                        ya as int,
                        yb as int,
                        columnas@[k].0 as int,
                        columnas@[k].1 as int,
                    ),
            decreases columnas.len() - c,
        {
            let (xa, xb) = columnas[c];
            assert(corte_valido(columnas@[c as int], m.ancho as int));
            fila.push(celda_de(m, ya, yb, xa, xb));
            c = c + 1;
        }
        r.push(fila);
        f = f + 1;
    }
    r
}

/// Letras que caben en una rejilla: sus celdas de figura (o `usize::MAX` si
/// fueran más).
pub fn capacidad(rejilla: &[Vec<bool>]) -> (n: usize)
    ensures
        n == if cuenta_rejilla(vista_rejilla(rejilla@)) <= usize::MAX {
            cuenta_rejilla(vista_rejilla(rejilla@))
        } else {
            usize::MAX as nat
        },
{
    let ghost r = vista_rejilla(rejilla@);
    let mut n: usize = 0;
    let mut f: usize = 0;
    while f < rejilla.len()
        invariant
            f <= rejilla@.len(),
            r == vista_rejilla(rejilla@),
            n == if cuenta_rejilla(r.take(f as int)) <= usize::MAX {
                cuenta_rejilla(r.take(f as int))
            } else {
                usize::MAX as nat
            },
        decreases rejilla.len() - f,
    {
        assert(r.take(f + 1).drop_last() =~= r.take(f as int));
        let k = crate::analisis::contar(&rejilla[f]);
        n = n.saturating_add(k);
        f = f + 1;
    }
    assert(r.take(rejilla@.len() as int) =~= r);
    n
}

/// `capacidad(n)` pudo devolver `c`.
pub open spec fn da<F: Fn(usize) -> usize>(capacidad: F, n: int, c: usize) -> bool {
    call_ensures(capacidad, (n as usize,), c)
}

/// Al ancho `m` el texto de `letras` letras no cupo: la capacidad dio menos.
pub open spec fn no_cabe<F: Fn(usize) -> usize>(capacidad: F, m: int, letras: usize) -> bool {
    exists|c: usize| #[trigger] da(capacidad, m, c) && c < letras
}

/// Lo que promete la búsqueda del ancho para `letras` letras: sin letras no
/// hay ancho; si no, `Ok(n)` con el menor `n` en que caben (en ninguno de
/// `1..n` cupieron), habiendo cabido al ancho máximo; o el error de que la
/// silueta está vacía o el texto no cabe ni al ancho máximo.
pub open spec fn ajuste<F: Fn(usize) -> usize>(
    capacidad: F,
    letras: usize,
    r: Result<usize, Error>,
) -> bool {
    match r {
        Ok(n) => letras > 0 && 1 <= n <= ANCHO_AUTO_MAX && (exists|c: usize|
            #[trigger] da(capacidad, ANCHO_AUTO_MAX as int, c) && c >= letras) && (exists|c: usize|
            #[trigger] da(capacidad, n as int, c) && c >= letras) && (forall|m: int|
            1 <= m < n ==> #[trigger] no_cabe(capacidad, m, letras)),
        Err(Error::TextoVacio) => letras == 0,
        Err(Error::SiluetaVacia) => letras > 0 && da(capacidad, ANCHO_AUTO_MAX as int, 0),
        Err(Error::TextoLargo { letras: l, maximo }) => letras > 0 && l == letras && 0 < maximo
            < letras && da(capacidad, ANCHO_AUTO_MAX as int, maximo),
        _ => false,
    }
}

/// Menor ancho (hasta `ANCHO_AUTO_MAX`) con capacidad para `letras`: si al
/// ancho máximo caben, se prueban los anchos de uno en uno desde 1 y se
/// devuelve el primero en que caben, así que aunque la capacidad oscile con
/// el muestreo ningún ancho menor tiene sitio.
pub fn ancho_para<F: Fn(usize) -> usize>(letras: usize, capacidad: F) -> (r: Result<usize, Error>)
    requires
        forall|n: usize| 1 <= n <= ANCHO_AUTO_MAX ==> call_requires(capacidad, (n,)),
    ensures
        ajuste(capacidad, letras, r),
        letras > 0 && (forall|c: usize|
            #[trigger] da(capacidad, ANCHO_AUTO_MAX as int, c) ==> c >= letras) ==> r is Ok,
        letras > 0 && (forall|c: usize|
            #[trigger] da(capacidad, ANCHO_AUTO_MAX as int, c) ==> c == 0) ==> r == Err::<
            usize,
            Error,
        >(Error::SiluetaVacia),
        letras > 0 && (forall|c: usize|
            #[trigger] da(capacidad, ANCHO_AUTO_MAX as int, c) ==> 0 < c < letras) ==> r matches Err(
            Error::TextoLargo { .. },
        ),
{
    if letras == 0 {
        return Err(Error::TextoVacio);
    }
    let maximo = capacidad(ANCHO_AUTO_MAX);
    assert(da(capacidad, ANCHO_AUTO_MAX as int, maximo));
    if maximo == 0 {
        return Err(Error::SiluetaVacia);
    }
    if maximo < letras {
        return Err(Error::TextoLargo { letras, maximo });
    }
    let mut n: usize = 1;
    while n < ANCHO_AUTO_MAX
        invariant
            forall|n: usize| 1 <= n <= ANCHO_AUTO_MAX ==> call_requires(capacidad, (n,)),
            1 <= n <= ANCHO_AUTO_MAX,
            letras > 0,
            da(capacidad, ANCHO_AUTO_MAX as int, maximo),
            maximo >= letras,
            forall|m: int| 1 <= m < n ==> #[trigger] no_cabe(capacidad, m, letras),
        decreases ANCHO_AUTO_MAX - n,
    {
        let c = capacidad(n);
        assert(da(capacidad, n as int, c));
        if c >= letras {
            return Ok(n);
        }
        assert(no_cabe(capacidad, n as int, letras));
        n = n + 1;
    }
    Ok(ANCHO_AUTO_MAX)
}

/// Las columnas de la salida: las fijadas, o con `Ancho::Auto` las que da
/// `ancho_para`.
pub fn columnas<F: Fn(usize) -> usize>(ancho: Ancho, letras: usize, capacidad: F) -> (r: Result<
    usize,
    Error,
>)
    requires
        forall|n: usize| 1 <= n <= ANCHO_AUTO_MAX ==> call_requires(capacidad, (n,)),
    ensures
        ancho matches Ancho::Fijo(n) ==> r == Ok::<usize, Error>(n),
        ancho is Auto ==> ajuste(capacidad, letras, r),
        ancho is Auto && letras > 0 && (forall|c: usize|
            #[trigger] da(capacidad, ANCHO_AUTO_MAX as int, c) ==> c >= letras) ==> r is Ok,
{
    match ancho {
        Ancho::Fijo(n) => Ok(n),
        Ancho::Auto => ancho_para(letras, capacidad),
    }
}

proof fn lema_tramo_crece(m1: Mascara, m2: Mascara, y: int, xa: int, xb: int)
    requires
        forall|x: int| xa <= x < xb && #[trigger] m1.en(x, y) ==> m2.en(x, y),
    ensures
        cuenta_tramo(m1, y, xa, xb, true) <= cuenta_tramo(m2, y, xa, xb, true),
    decreases xb - xa,
{
    if xb > xa {
        lema_tramo_crece(m1, m2, y, xa, xb - 1);
        if m1.en(xb - 1, y) {
            assert(m2.en(xb - 1, y));
        }
    }
}

proof fn lema_celda_crece(m1: Mascara, m2: Mascara, ya: int, yb: int, xa: int, xb: int)
    requires
        forall|x: int, y: int| ya <= y < yb && xa <= x < xb && #[trigger] m1.en(x, y) ==> m2.en(x, y),
    ensures
        cuenta_celda(m1, ya, yb, xa, xb, true) <= cuenta_celda(m2, ya, yb, xa, xb, true),
    decreases yb - ya,
{
    if yb > ya {
        lema_celda_crece(m1, m2, ya, yb - 1, xa, xb);
        assert forall|x: int| xa <= x < xb && #[trigger] m1.en(x, yb - 1) implies m2.en(x, yb - 1) by {}
        lema_tramo_crece(m1, m2, yb - 1, xa, xb);
    }
}

/// Ley de la rejilla: más figura en la máscara nunca quita celdas de
/// figura. Si cada píxel de figura de `m1` lo es también de `m2`, toda
/// celda llena en `m1` lo está en `m2`.
pub proof fn ley_celda_crece(m1: Mascara, m2: Mascara, ya: int, yb: int, xa: int, xb: int)
    requires
        ya <= yb,
        xa <= xb,
        forall|x: int, y: int| ya <= y < yb && xa <= x < xb && #[trigger] m1.en(x, y) ==> m2.en(x, y),
    ensures
        celda_llena(m1, ya, yb, xa, xb) ==> celda_llena(m2, ya, yb, xa, xb),
{
    lema_celda_crece(m1, m2, ya, yb, xa, xb);
    lema_celda_suma(m1, ya, yb, xa, xb);
    lema_celda_suma(m2, ya, yb, xa, xb);
}

proof fn lema_tramo_uniforme(m: Mascara, y: int, xa: int, xb: int, v: bool)
    requires
        xa <= xb,
        forall|x: int| xa <= x < xb ==> #[trigger] m.en(x, y) == v,
    ensures
        cuenta_tramo(m, y, xa, xb, v) == xb - xa,
    decreases xb - xa,
{
    if xb > xa {
        lema_tramo_uniforme(m, y, xa, xb - 1, v);
    }
}

proof fn lema_celda_uniforme(m: Mascara, ya: int, yb: int, xa: int, xb: int, v: bool)
    requires
        ya <= yb,
        xa <= xb,
        forall|x: int, y: int| ya <= y < yb && xa <= x < xb ==> #[trigger] m.en(x, y) == v,
    ensures
        cuenta_celda(m, ya, yb, xa, xb, v) == (yb - ya) * (xb - xa),
    decreases yb - ya,
{
    if yb > ya {
        lema_celda_uniforme(m, ya, yb - 1, xa, xb, v);
        assert forall|x: int| xa <= x < xb implies #[trigger] m.en(x, yb - 1) == v by {}
        lema_tramo_uniforme(m, yb - 1, xa, xb, v);
        assert((yb - ya) * (xb - xa) == (yb - 1 - ya) * (xb - xa) + (xb - xa)) by (nonlinear_arith);
    } else {
        assert((yb - ya) * (xb - xa) == 0) by (nonlinear_arith)
            requires
                yb == ya,
        ;
    }
}

/// Una celda (no vacía) de una máscara toda de fondo es fondo, y de una
/// toda de figura, figura.
pub proof fn ley_celda_uniforme(m: Mascara, ya: int, yb: int, xa: int, xb: int, v: bool)
    requires
        ya < yb,
        xa < xb,
        forall|x: int, y: int| ya <= y < yb && xa <= x < xb ==> #[trigger] m.en(x, y) == v,
    ensures
        celda_llena(m, ya, yb, xa, xb) == v,
{
    lema_celda_uniforme(m, ya, yb, xa, xb, v);
    lema_celda_suma(m, ya, yb, xa, xb);
    assert((yb - ya) * (xb - xa) > 0) by (nonlinear_arith)
        requires
            ya < yb,
            xa < xb,
    ;
}

} // verus!
