//! Los colores de la imagen: cada celda lleva el color medio de sus píxeles
//! de figura, y cada letra del dibujo se pinta con el color de su celda.

use vstd::prelude::*;

use crate::animacion::{partes, partir, pintar, pintar_linea};
use crate::ansi::{quitar_ansi_linea, sin_ansi};
use crate::composicion::unir;
use crate::mascara::{lema_indice, origen_valido, Imagen, Mascara};
use crate::rejilla::{corte_valido, cuenta_celda, cuenta_tramo};
use crate::texto::{cadena, caracteres, grafemas, grafemas_de, vista};

verus! {

/// El canal `c` del píxel de la imagen del que sale el píxel `(x, y)` con
/// los orígenes `ox`, `oy` (0 si no sale de ninguno).
pub open spec fn canal_en(img: Imagen, ox: Seq<Option<usize>>, oy: Seq<Option<usize>>, x: int, y: int, c: int) -> nat {
    match (ox[x], oy[y]) {
        (Some(sx), Some(sy)) => img.canal(sy * img.ancho + sx, c) as nat,
        _ => 0,
    }
}

/// Suma del canal `c` en los píxeles de figura de la fila `y`, columnas
/// `xa..xb`.
pub open spec fn suma_tramo(
    m: Mascara,
    img: Imagen,
    ox: Seq<Option<usize>>,
    oy: Seq<Option<usize>>,
    y: int,
    xa: int,
    xb: int,
    c: int,
) -> nat
    decreases xb - xa,
{
    if xb <= xa {
        0
    } else {
        suma_tramo(m, img, ox, oy, y, xa, xb - 1, c) + if m.en(xb - 1, y) {
            canal_en(img, ox, oy, xb - 1, y, c)
        } else {
            0
        }
    }
}

/// Suma del canal `c` en los píxeles de figura del rectángulo.
pub open spec fn suma_celda(
    m: Mascara,
    img: Imagen,
    ox: Seq<Option<usize>>,
    oy: Seq<Option<usize>>,
    ya: int,
    yb: int,
    xa: int,
    xb: int,
    c: int,
) -> nat
    decreases yb - ya,
{
    if yb <= ya {
        0
    } else {
        suma_celda(m, img, ox, oy, ya, yb - 1, xa, xb, c) + suma_tramo(m, img, ox, oy, yb - 1, xa, xb, c)
    }
}

/// La media redondeada de `n` valores que suman `s` (0 si no hay ninguno).
pub open spec fn media(s: nat, n: nat) -> nat {
    if n == 0 {
        0
    } else {
        (s + n / 2) / n
    }
}

/// El color de una celda: el medio de sus píxeles de figura, canal a canal.
pub open spec fn color_celda(
    m: Mascara,
    img: Imagen,
    ox: Seq<Option<usize>>,
    oy: Seq<Option<usize>>,
    ya: int,
    yb: int,
    xa: int,
    xb: int,
) -> Seq<u8> {
    let n = cuenta_celda(m, ya, yb, xa, xb, true);
    seq![
        media(suma_celda(m, img, ox, oy, ya, yb, xa, xb, 0), n) as u8,
        media(suma_celda(m, img, ox, oy, ya, yb, xa, xb, 1), n) as u8,
        media(suma_celda(m, img, ox, oy, ya, yb, xa, xb, 2), n) as u8,
    ]
}

/// Imagen, máscara y orígenes de la misma figura.
pub open spec fn acordes(img: Imagen, m: Mascara, ox: Seq<Option<usize>>, oy: Seq<Option<usize>>) -> bool {
    &&& img.bien_formada()
    &&& m.bien_formada()
    &&& m.ancho == img.ancho
    &&& m.alto == img.alto
    &&& ox.len() == img.ancho
    &&& oy.len() == img.alto
    &&& forall|x: int| 0 <= x < img.ancho ==> origen_valido(#[trigger] ox[x], img.ancho as int)
    &&& forall|y: int| 0 <= y < img.alto ==> origen_valido(#[trigger] oy[y], img.alto as int)
}

proof fn lema_media(s: nat, n: nat)
    requires
        s <= 255 * n,
    ensures
        media(s, n) <= 255,
{
    if n > 0 {
        assert((s + n / 2) / n <= 255) by (nonlinear_arith)
            requires
                s <= 255 * n,
                n > 0,
        ;
    }
}

fn canal_de(img: &Imagen, ox: &[Option<usize>], oy: &[Option<usize>], x: usize, y: usize, c: usize) -> (v: u8)
    requires
        img.bien_formada(),
        ox@.len() == img.ancho,
        oy@.len() == img.alto,
        forall|x: int| 0 <= x < img.ancho ==> origen_valido(#[trigger] ox@[x], img.ancho as int),
        forall|y: int| 0 <= y < img.alto ==> origen_valido(#[trigger] oy@[y], img.alto as int),
        x < img.ancho,
        y < img.alto,
        c < 3,
    ensures
        v as nat == canal_en(*img, ox@, oy@, x as int, y as int, c as int),
{
    match (ox[x], oy[y]) {
        (Some(sx), Some(sy)) => {
            let largo = img.rgba.len();
            proof {
                lema_indice(sx as int, sy as int, img.ancho as int, img.alto as int);
                assert((img.ancho as int) * (img.alto as int) <= usize::MAX) by (nonlinear_arith)
                    requires
                        largo == 4 * (img.ancho * img.alto),
                        largo <= usize::MAX,
                ;
            }
            let i = sy * img.ancho + sx;
            assert(4 * i + c < 4 * (img.ancho * img.alto));
            img.rgba[4 * i + c]
        },
        _ => 0,
    }
}

/// El color de la celda de filas `ya..yb` y columnas `xa..xb` (ver
/// `color_celda`).
fn color_de_celda(
    img: &Imagen,
    m: &Mascara,
    ox: &[Option<usize>],
    oy: &[Option<usize>],
    ya: usize,
    yb: usize,
    xa: usize,
    xb: usize,
) -> (r: [u8; 3])
    requires
        acordes(*img, *m, ox@, oy@),
        ya <= yb <= img.alto,
        xa <= xb <= img.ancho,
    ensures
        r@ == color_celda(*m, *img, ox@, oy@, ya as int, yb as int, xa as int, xb as int),
{
    let largo = img.rgba.len();
    assert((img.alto as int) * (img.ancho as int) <= usize::MAX) by (nonlinear_arith)
        requires
            largo == 4 * (img.ancho * img.alto),
            largo <= usize::MAX,
    ;
    let mut n: u128 = 0;
    let mut s0: u128 = 0;
    let mut s1: u128 = 0;
    let mut s2: u128 = 0;
    let mut y = ya;
    while y < yb
        invariant
            acordes(*img, *m, ox@, oy@),
            ya <= y <= yb <= img.alto,
            xa <= xb <= img.ancho,
            n == cuenta_celda(*m, ya as int, y as int, xa as int, xb as int, true),
            s0 == suma_celda(*m, *img, ox@, oy@, ya as int, y as int, xa as int, xb as int, 0),
            s1 == suma_celda(*m, *img, ox@, oy@, ya as int, y as int, xa as int, xb as int, 1),
            s2 == suma_celda(*m, *img, ox@, oy@, ya as int, y as int, xa as int, xb as int, 2),
            n <= (y - ya) * img.ancho,
            s0 <= 255 * n,
            s1 <= 255 * n,
            s2 <= 255 * n,
            (img.alto as int) * (img.ancho as int) <= usize::MAX,
        decreases yb - y,
    {
        let mut x = xa;
        let ghost n0 = n;
        while x < xb
            invariant
                acordes(*img, *m, ox@, oy@),
                ya <= y < yb <= img.alto,
                xa <= x <= xb <= img.ancho,
                n == n0 + cuenta_tramo(*m, y as int, xa as int, x as int, true),
                n0 == cuenta_celda(*m, ya as int, y as int, xa as int, xb as int, true),
                s0 == suma_celda(*m, *img, ox@, oy@, ya as int, y as int, xa as int, xb as int, 0)
                    + suma_tramo(*m, *img, ox@, oy@, y as int, xa as int, x as int, 0),
                s1 == suma_celda(*m, *img, ox@, oy@, ya as int, y as int, xa as int, xb as int, 1)
                    + suma_tramo(*m, *img, ox@, oy@, y as int, xa as int, x as int, 1),
                s2 == suma_celda(*m, *img, ox@, oy@, ya as int, y as int, xa as int, xb as int, 2)
                    + suma_tramo(*m, *img, ox@, oy@, y as int, xa as int, x as int, 2),
                n0 <= (y - ya) * img.ancho,
                n <= n0 + (x - xa),
                s0 <= 255 * n,
                s1 <= 255 * n,
                s2 <= 255 * n,
                (img.alto as int) * (img.ancho as int) <= usize::MAX,
            decreases xb - x,
        {
            if m.get(x, y) {
                let c0 = canal_de(img, ox, oy, x, y, 0);
                let c1 = canal_de(img, ox, oy, x, y, 1);
                let c2 = canal_de(img, ox, oy, x, y, 2);
                assert((y - ya) * img.ancho + (x - xa) < (img.alto as int) * (img.ancho as int)) by (nonlinear_arith)
                    requires
                        ya <= y < img.alto,
                        xa <= x < img.ancho,
                ;
                n = n + 1;
                s0 = s0 + c0 as u128;
                s1 = s1 + c1 as u128;
                s2 = s2 + c2 as u128;
            }
            x = x + 1;
        }
        assert(n <= (y + 1 - ya) * img.ancho) by (nonlinear_arith)
            requires
                n <= n0 + (x - xa),
                n0 <= (y - ya) * img.ancho,
                x - xa <= img.ancho,
        ;
        y = y + 1;
    }
    assert(n <= usize::MAX) by (nonlinear_arith)
        requires
            n <= (y - ya) * img.ancho,
            ya <= y <= img.alto,
            (img.alto as int) * (img.ancho as int) <= usize::MAX,
    ;
    proof {
        lema_media(s0 as nat, n as nat);
        lema_media(s1 as nat, n as nat);
        lema_media(s2 as nat, n as nat);
    }
    let r = if n == 0 {
        [0u8, 0u8, 0u8]
    } else {
        [((s0 + n / 2) / n) as u8, ((s1 + n / 2) / n) as u8, ((s2 + n / 2) / n) as u8]
    };
    assert(r@ =~= color_celda(*m, *img, ox@, oy@, ya as int, yb as int, xa as int, xb as int));
    r
}

/// El color de cada celda de la rejilla de cortes `filas` × `columnas` de la
/// máscara `m`, vista la imagen con los orígenes `ox`, `oy`.
pub fn colores_celdas(
    img: &Imagen,
    m: &Mascara,
    ox: &[Option<usize>],
    oy: &[Option<usize>],
    filas: &[(usize, usize)],
    columnas: &[(usize, usize)],
) -> (r: Vec<Vec<[u8; 3]>>)
    requires
        acordes(*img, *m, ox@, oy@),
        forall|f: int| 0 <= f < filas@.len() ==> corte_valido(#[trigger] filas@[f], m.alto as int),
        forall|c: int|
            0 <= c < columnas@.len() ==> corte_valido(#[trigger] columnas@[c], m.ancho as int),
    ensures
        r@.len() == filas@.len(),
        forall|f: int| 0 <= f < r@.len() ==> (#[trigger] r@[f])@.len() == columnas@.len(),
        forall|f: int, c: int|
            0 <= f < r@.len() && 0 <= c < columnas@.len() ==> (#[trigger] r@[f]@[c])@ == color_celda(
                *m,
                *img,
                ox@,
                oy@,
                filas@[f].0 as int,
                filas@[f].1 as int,
                columnas@[c].0 as int,
                columnas@[c].1 as int,
            ),
{
    let mut r: Vec<Vec<[u8; 3]>> = Vec::new();
    let mut f: usize = 0;
    while f < filas.len()
        invariant
            acordes(*img, *m, ox@, oy@),
            forall|f: int| 0 <= f < filas@.len() ==> corte_valido(#[trigger] filas@[f], m.alto as int),
            forall|c: int|
                0 <= c < columnas@.len() ==> corte_valido(#[trigger] columnas@[c], m.ancho as int),
            f <= filas@.len(),
            r@.len() == f,
            forall|g: int| 0 <= g < f ==> (#[trigger] r@[g])@.len() == columnas@.len(),
            forall|g: int, c: int|
                0 <= g < f && 0 <= c < columnas@.len() ==> (#[trigger] r@[g]@[c])@ == color_celda(
                    *m,
                    *img,
                    ox@,
                    oy@,
                    filas@[g].0 as int,
                    filas@[g].1 as int,
                    columnas@[c].0 as int,
                    columnas@[c].1 as int,
                ),
        decreases filas.len() - f,
    {
        let (ya, yb) = filas[f];
        assert(corte_valido(filas@[f as int], m.alto as int));
        let mut fila: Vec<[u8; 3]> = Vec::new();
        let mut c: usize = 0;
        while c < columnas.len()
            invariant
                acordes(*img, *m, ox@, oy@),
                forall|c: int|
                    0 <= c < columnas@.len() ==> corte_valido(#[trigger] columnas@[c], m.ancho as int),
                ya < yb <= m.alto,
                (ya, yb) == filas@[f as int],
                c <= columnas@.len(),
                fila@.len() == c,
                forall|k: int|
                    0 <= k < c ==> (#[trigger] fila@[k])@ == color_celda(
                        *m,
                        *img,
                        ox@,
                        oy@,
                        ya as int,
                        yb as int,
                        columnas@[k].0 as int,
                        columnas@[k].1 as int,
                    ),
            decreases columnas.len() - c,
        {
            let (xa, xb) = columnas[c];
            assert(corte_valido(columnas@[c as int], m.ancho as int));
            let k = color_de_celda(img, m, ox, oy, ya, yb, xa, xb);
            fila.push(k);
            c = c + 1;
        }
        r.push(fila);
        f = f + 1;
    }
    r
}

/// El fotograma con cada línea pintada con su paleta (un color por
/// columna), sin las secuencias ANSI que trajera.
pub open spec fn coloreado_por_filas(s: Seq<char>, paletas: Seq<Seq<[u8; 3]>>) -> Seq<char> {
    unir(
        partes(s).map(
            |j: int, l: Seq<char>| pintar(grafemas_de(sin_ansi(l)), paletas[j], 0, None),
        ),
    )
}

/// Cada línea tiene paleta, con tantos colores al menos como grafemas.
pub open spec fn paletas_alcanzan(s: Seq<char>, paletas: Seq<Seq<[u8; 3]>>) -> bool {
    &&& partes(s).len() <= paletas.len()
    &&& forall|j: int|
        0 <= j < partes(s).len() ==> grafemas_de(sin_ansi(#[trigger] partes(s)[j])).len()
            <= paletas[j].len()
}

/// Las paletas por sus colores.
pub open spec fn vistas_paletas(p: Seq<Vec<[u8; 3]>>) -> Seq<Seq<[u8; 3]>> {
    p.map_values(|v: Vec<[u8; 3]>| v@)
}

/// Pinta cada línea del fotograma con su paleta: la letra de la columna `k`
/// de la línea `j` con el color `paletas[j][k]` (ANSI de 24 bits).
pub fn colorear_por_filas(fotograma: &str, paletas: &[Vec<[u8; 3]>]) -> (s: String)
    requires
        paletas_alcanzan(fotograma@, vistas_paletas(paletas@)),
    ensures
        s@ == coloreado_por_filas(fotograma@, vistas_paletas(paletas@)),
{
    let cs = caracteres(fotograma);
    let lineas = partir(&cs);
    let ghost ps = partes(fotograma@);
    let ghost pv = vistas_paletas(paletas@);
    let ghost pintadas = ps.map(
        |j: int, l: Seq<char>| pintar(grafemas_de(sin_ansi(l)), pv[j], 0, None),
    );
    let mut v: Vec<char> = Vec::new();
    let mut j: usize = 0;
    while j < lineas.len()
        invariant
            j <= lineas@.len(),
            vista(lineas@) == ps,
            ps == partes(fotograma@),
            pv == vistas_paletas(paletas@),
            paletas_alcanzan(fotograma@, pv),
            pintadas == ps.map(
                |j: int, l: Seq<char>| pintar(grafemas_de(sin_ansi(l)), pv[j], 0, None),
            ),
            v@ == unir(pintadas.take(j as int)),
        decreases lineas.len() - j,
    {
        assert(ps[j as int] == lineas@[j as int]@);
        let limpia = quitar_ansi_linea(&lineas[j]);
        let gs = grafemas(limpia.as_slice());
        assert(pv[j as int] == paletas@[j as int]@);
        if j > 0 {
            v.push('\n');
        }
        pintar_linea(&mut v, &gs, paletas[j].as_slice());
        proof {
            let t = pintadas.take(j + 1);
            assert(t.drop_last() =~= pintadas.take(j as int));
            assert(t.last() == pintar(grafemas_de(sin_ansi(ps[j as int])), pv[j as int], 0, None));
            if j == 0 {
                assert(v@ =~= unir(t));
            } else {
                assert(v@ =~= unir(t.drop_last()) + seq!['\n'] + t.last());
            }
        }
        j = j + 1;
    }
    assert(pintadas.take(lineas@.len() as int) =~= pintadas);
    cadena(v.as_slice())
}

/// Las paletas de un fotograma recortado: las filas de colores desde la
/// fila `p`, cada una desde la columna `m` (vacía si es más corta).
pub open spec fn paletas_recortadas(colores: Seq<Seq<[u8; 3]>>, p: int, m: int) -> Seq<Seq<[u8; 3]>> {
    Seq::new(
        if p <= colores.len() {
            (colores.len() - p) as nat
        } else {
            0
        },
        |j: int|
            if m <= colores[p + j].len() {
                colores[p + j].skip(m)
            } else {
                seq![]
            },
    )
}

fn recortar_paletas(colores: &[Vec<[u8; 3]>], p: usize, m: usize) -> (r: Vec<Vec<[u8; 3]>>)
    ensures
        vistas_paletas(r@) == paletas_recortadas(vistas_paletas(colores@), p as int, m as int),
{
    let ghost cv = vistas_paletas(colores@);
    let mut r: Vec<Vec<[u8; 3]>> = Vec::new();
    if p >= colores.len() {
        assert(vistas_paletas(r@) =~= paletas_recortadas(cv, p as int, m as int));
        return r;
    }
    let mut f = p;
    while f < colores.len()
        invariant
            p <= f <= colores@.len(),
            cv == vistas_paletas(colores@),
            r@.len() == f - p,
            forall|j: int|
                0 <= j < r@.len() ==> (#[trigger] r@[j])@ == paletas_recortadas(cv, p as int, m as int)[j],
        decreases colores.len() - f,
    {
        let fila = &colores[f];
        assert(cv[f as int] == fila@);
        let mut nueva: Vec<[u8; 3]> = Vec::new();
        if m <= fila.len() {
            let mut k = m;
            while k < fila.len()
                invariant
                    m <= k <= fila@.len(),
                    nueva@ == fila@.subrange(m as int, k as int),
                decreases fila.len() - k,
            {
                nueva.push(fila[k]);
                k = k + 1;
                assert(nueva@ =~= fila@.subrange(m as int, k as int));
            }
            assert(nueva@ =~= fila@.skip(m as int));
        } else {
            assert(nueva@ =~= Seq::<[u8; 3]>::empty());
        }
        r.push(nueva);
        f = f + 1;
    }
    assert(vistas_paletas(r@) =~= paletas_recortadas(cv, p as int, m as int));
    r
}

fn cuentan_en(fotograma: &str, paletas: &[Vec<[u8; 3]>]) -> (b: bool)
    ensures
        b == paletas_alcanzan(fotograma@, vistas_paletas(paletas@)),
{
    let cs = caracteres(fotograma);
    let lineas = partir(&cs);
    let ghost ps = partes(fotograma@);
    let ghost pv = vistas_paletas(paletas@);
    if lineas.len() > paletas.len() {
        return false;
    }
    let mut j: usize = 0;
    while j < lineas.len()
        invariant
            j <= lineas@.len() <= paletas@.len(),
            vista(lineas@) == ps,
            ps == partes(fotograma@),
            pv == vistas_paletas(paletas@),
            forall|k: int| 0 <= k < j ==> grafemas_de(sin_ansi(#[trigger] ps[k])).len() <= pv[k].len(),
        decreases lineas.len() - j,
    {
        assert(ps[j as int] == lineas@[j as int]@);
        assert(pv[j as int] == paletas@[j as int]@);
        let limpia = quitar_ansi_linea(&lineas[j]);
        let gs = grafemas(limpia.as_slice());
        if gs.len() > paletas[j].len() {
            return false;
        }
        j = j + 1;
    }
    true
}

/// Pinta un fotograma con los colores de la imagen: la letra de la columna
/// `k` de la línea `j` lleva el color de la celda `(p + j, m + k)`, donde
/// `p` y `m` son la primera fila y el margen del recorte. `None` si alguna
/// línea tiene más letras que celdas quedan en su fila.
pub fn colorear_con_imagen(fotograma: &str, colores: &[Vec<[u8; 3]>], p: usize, m: usize) -> (r: Option<
    String,
>)
    ensures
        ({
            let ps = paletas_recortadas(vistas_paletas(colores@), p as int, m as int);
            &&& paletas_alcanzan(fotograma@, ps) ==> (r matches Some(s) && s@ == coloreado_por_filas(
                fotograma@,
                ps,
            ))
            &&& !paletas_alcanzan(fotograma@, ps) ==> r is None
        }),
{
    let paletas = recortar_paletas(colores, p, m);
    if cuentan_en(fotograma, paletas.as_slice()) {
        Some(colorear_por_filas(fotograma, paletas.as_slice()))
    } else {
        None
    }
}

} // verus!
