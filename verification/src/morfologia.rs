//! Operaciones sobre la máscara: el cierre morfológico que une trazos
//! punteados y el relleno de los huecos interiores.

use vstd::arithmetic::div_mod::{lemma_fundamental_div_mod, lemma_mod_bound};
use vstd::prelude::*;

use crate::mascara::lema_indice;

verus! {

/// El píxel `(x, y)` de unos datos de ancho `w`.
pub open spec fn en(s: Seq<bool>, w: int, x: int, y: int) -> bool {
    s[y * w + x]
}

/// La posición `p` de unos datos de `w`×`h` es el píxel `(p % w, p / w)`.
pub proof fn lema_descomponer(p: int, w: int, h: int)
    requires
        0 <= p < w * h,
        0 <= w,
        0 <= h,
    ensures
        0 <= p % w < w,
        0 <= p / w < h,
        (p / w) * w + p % w == p,
{
    assert(w > 0) by (nonlinear_arith)
        requires
            0 <= p < w * h,
            0 <= h,
    ;
    lemma_fundamental_div_mod(p, w);
    lemma_mod_bound(p, w);
    let (x, y) = (p % w, p / w);
    assert(w * y == y * w) by (nonlinear_arith);
    assert(0 <= y) by (nonlinear_arith)
        requires
            p == w * y + x,
            0 <= p,
            0 <= x < w,
    ;
    assert(y < h) by (nonlinear_arith)
        requires
            p == w * y + x,
            p < w * h,
            0 <= x < w,
    ;
}

/// Cuántos `k < i` cumplen `f(k)`.
pub open spec fn cuantos_cumplen(f: spec_fn(int) -> bool, i: int) -> nat
    decreases i,
{
    if i <= 0 {
        0
    } else {
        cuantos_cumplen(f, i - 1) + if f(i - 1) {
            1nat
        } else {
            0nat
        }
    }
}

proof fn lema_cuantos_cumplen(f: spec_fn(int) -> bool, a: int, b: int)
    requires
        0 <= a <= b,
    ensures
        cuantos_cumplen(f, a) <= cuantos_cumplen(f, b),
        cuantos_cumplen(f, b) - cuantos_cumplen(f, a) <= b - a,
        (cuantos_cumplen(f, b) - cuantos_cumplen(f, a) == b - a) <==> (forall|k: int|
            a <= k < b ==> #[trigger] f(k)),
        (cuantos_cumplen(f, b) - cuantos_cumplen(f, a) > 0) <==> (exists|k: int|
            a <= k < b && #[trigger] f(k)),
    decreases b - a,
{
    if b > a {
        lema_cuantos_cumplen(f, a, b - 1);
        if forall|k: int| a <= k < b ==> #[trigger] f(k) {
            assert(f(b - 1));
        }
        if exists|k: int| a <= k < b && #[trigger] f(k) {
            let k = choose|k: int| a <= k < b && #[trigger] f(k);
            if k < b - 1 {
                assert(exists|k2: int| a <= k2 < b - 1 && #[trigger] f(k2));
            }
        }
    }
}

/// Inicio de la ventana de radio `r` alrededor de `i`.
pub open spec fn ventana_ini(i: int, r: int) -> int {
    if i - r > 0 {
        i - r
    } else {
        0
    }
}

/// Fin (excluido) de la ventana de radio `r` alrededor de `i`, sin salirse
/// de la línea de `largo` celdas.
pub open spec fn ventana_fin(i: int, r: int, largo: int) -> int {
    if i + r + 1 < largo {
        i + r + 1
    } else {
        largo
    }
}

/// Al dilatar, alguna celda de la ventana `[a, b)` cumple `f`; al
/// erosionar, todas.
pub open spec fn ventana(f: spec_fn(int) -> bool, a: int, b: int, erosion: bool) -> bool {
    if erosion {
        forall|k: int| a <= k < b ==> #[trigger] f(k)
    } else {
        exists|k: int| a <= k < b && #[trigger] f(k)
    }
}

/// La fila `y` como función de la columna.
pub open spec fn fila_de(s: Seq<bool>, w: int, y: int) -> spec_fn(int) -> bool {
    |k: int| en(s, w, k, y)
}

/// La columna `x` como función de la fila.
pub open spec fn columna_de(s: Seq<bool>, w: int, x: int) -> spec_fn(int) -> bool {
    |k: int| en(s, w, x, k)
}

/// Pasada horizontal de radio `r`: cada píxel mira su ventana en la fila.
pub open spec fn pasada_horizontal_spec(s: Seq<bool>, w: int, r: int, erosion: bool) -> Seq<bool> {
    Seq::new(
        s.len(),
        |p: int|
            ventana(
                fila_de(s, w, p / w),
                ventana_ini(p % w, r),
                ventana_fin(p % w, r, w),
                erosion,
            ),
    )
}

/// Pasada vertical de radio `r`: cada píxel mira su ventana en la columna.
pub open spec fn pasada_vertical_spec(s: Seq<bool>, w: int, h: int, r: int, erosion: bool) -> Seq<
    bool,
> {
    Seq::new(
        s.len(),
        |p: int|
            ventana(
                columna_de(s, w, p % w),
                ventana_ini(p / w, r),
                ventana_fin(p / w, r, h),
                erosion,
            ),
    )
}

/// Límites de la ventana de radio `r` alrededor de `i` en una línea de
/// `largo` celdas, sin desbordar.
fn limites(i: usize, r: usize, largo: usize) -> (ab: (usize, usize))
    requires
        i < largo,
    ensures
        ab.0 == ventana_ini(i as int, r as int),
        ab.1 == ventana_fin(i as int, r as int, largo as int),
        ab.0 <= i < ab.1 <= largo,
{
    let a = if i > r {
        i - r
    } else {
        0
    };
    let b = if r < largo - i - 1 {
        i + r + 1
    } else {
        largo
    };
    (a, b)
}

fn ceros(n: usize) -> (v: Vec<usize>)
    ensures
        v@.len() == n,
        forall|j: int| 0 <= j < n ==> v@[j] == 0,
{
    let mut v: Vec<usize> = Vec::new();
    let mut k: usize = 0;
    while k < n
        invariant
            k <= n,
            v@.len() == k,
            forall|j: int| 0 <= j < k ==> v@[j] == 0,
        decreases n - k,
    {
        v.push(0);
        k = k + 1;
    }
    v
}

/// Dilatación (o erosión) horizontal de radio `r`, con sumas acumuladas por
/// fila.
pub fn pasada_horizontal(datos: &mut Vec<bool>, w: usize, h: usize, r: usize, erosion: bool)
    requires
        old(datos)@.len() == w * h,
        w < usize::MAX,
    ensures
        final(datos)@ == pasada_horizontal_spec(old(datos)@, w as int, r as int, erosion),
{
    let ghost s = datos@;
    let n = datos.len();
    let mut acum = ceros(w + 1);
    let mut y: usize = 0;
    while y < h
        invariant
            y <= h,
            n == s.len(),
            s.len() == w * h,
            datos@.len() == s.len(),
            acum@.len() == w + 1,
            acum@[0] == 0,
            forall|xq: int, yq: int|
                0 <= xq < w && 0 <= yq < h ==> #[trigger] en(datos@, w as int, xq, yq) == if yq < y {
                    ventana(
                        fila_de(s, w as int, yq),
                        ventana_ini(xq, r as int),
                        ventana_fin(xq, r as int, w as int),
                        erosion,
                    )
                } else {
                    en(s, w as int, xq, yq)
                },
        decreases h - y,
    {
        let ghost f = fila_de(s, w as int, y as int);
        assert(cuantos_cumplen(f, 0) == 0);
        let mut x: usize = 0;
        while x < w
            invariant
                x <= w,
                y < h,
                n == s.len(),
                s.len() == w * h,
                datos@.len() == s.len(),
                acum@.len() == w + 1,
                acum@[0] == 0,
                f == fila_de(s, w as int, y as int),
                forall|j: int| 0 <= j <= x ==> #[trigger] acum@[j] == cuantos_cumplen(f, j),
                forall|xq: int, yq: int|
                    0 <= xq < w && 0 <= yq < h ==> #[trigger] en(datos@, w as int, xq, yq) == if yq
                        < y {
                        ventana(
                            fila_de(s, w as int, yq),
                            ventana_ini(xq, r as int),
                            ventana_fin(xq, r as int, w as int),
                            erosion,
                        )
                    } else {
                        en(s, w as int, xq, yq)
                    },
            decreases w - x,
        {
            proof {
                lema_indice(x as int, y as int, w as int, h as int);
                lema_cuantos_cumplen(f, x as int, x + 1);
                lema_cuantos_cumplen(f, 0, x as int);
                assert(en(datos@, w as int, x as int, y as int) == f(x as int));
            }
            let v: usize = if datos[y * w + x] {
                1
            } else {
                0
            };
            let previo = acum[x];
            acum.set(x + 1, previo + v);
            x = x + 1;
        }
        let mut x: usize = 0;
        while x < w
            invariant
                x <= w,
                y < h,
                n == s.len(),
                s.len() == w * h,
                datos@.len() == s.len(),
                acum@.len() == w + 1,
                acum@[0] == 0,
                f == fila_de(s, w as int, y as int),
                forall|j: int| 0 <= j <= w ==> #[trigger] acum@[j] == cuantos_cumplen(f, j),
                forall|xq: int, yq: int|
                    0 <= xq < w && 0 <= yq < h ==> #[trigger] en(datos@, w as int, xq, yq) == if yq
                        < y || (yq == y && xq < x) {
                        ventana(
                            fila_de(s, w as int, yq),
                            ventana_ini(xq, r as int),
                            ventana_fin(xq, r as int, w as int),
                            erosion,
                        )
                    } else {
                        en(s, w as int, xq, yq)
                    },
            decreases w - x,
        {
            let (a, b) = limites(x, r, w);
            proof {
                lema_indice(x as int, y as int, w as int, h as int);
                lema_cuantos_cumplen(f, a as int, b as int);
            }
            let cuenta = acum[b] - acum[a];
            let valor = if erosion {
                cuenta == b - a
            } else {
                cuenta > 0
            };
            let ghost antes = datos@;
            datos.set(y * w + x, valor);
            proof {
                assert forall|xq: int, yq: int|
                    0 <= xq < w && 0 <= yq < h && !(xq == x && yq == y) implies #[trigger] en(
                    datos@,
                    w as int,
                    xq,
                    yq,
                ) == en(antes, w as int, xq, yq) by {
                    lema_indice(xq, yq, w as int, h as int);
                    if yq * w + xq == y * w + x {
                        lema_misma_celda(xq, yq, x as int, y as int, w as int);
                    }
                }
            }
            x = x + 1;
        }
        y = y + 1;
    }
    proof {
        assert forall|p: int| 0 <= p < s.len() implies #[trigger] datos@[p]
            == pasada_horizontal_spec(s, w as int, r as int, erosion)[p] by {
            lema_descomponer(p, w as int, h as int);
            assert(en(datos@, w as int, p % w as int, p / w as int) == datos@[p]);
        }
        assert(datos@ =~= pasada_horizontal_spec(s, w as int, r as int, erosion));
    }
}

/// Dilatación (o erosión) vertical de radio `r`, con sumas acumuladas por
/// columna.
pub fn pasada_vertical(datos: &mut Vec<bool>, w: usize, h: usize, r: usize, erosion: bool)
    requires
        old(datos)@.len() == w * h,
        h < usize::MAX,
    ensures
        final(datos)@ == pasada_vertical_spec(old(datos)@, w as int, h as int, r as int, erosion),
{
    let ghost s = datos@;
    let n = datos.len();
    let mut acum = ceros(h + 1);
    let mut c: usize = 0;
    while c < w
        invariant
            c <= w,
            n == s.len(),
            s.len() == w * h,
            datos@.len() == s.len(),
            acum@.len() == h + 1,
            acum@[0] == 0,
            forall|xq: int, yq: int|
                0 <= xq < w && 0 <= yq < h ==> #[trigger] en(datos@, w as int, xq, yq) == if xq < c {
                    ventana(
                        columna_de(s, w as int, xq),
                        ventana_ini(yq, r as int),
                        ventana_fin(yq, r as int, h as int),
                        erosion,
                    )
                } else {
                    en(s, w as int, xq, yq)
                },
        decreases w - c,
    {
        let ghost f = columna_de(s, w as int, c as int);
        assert(cuantos_cumplen(f, 0) == 0);
        let mut x: usize = 0;
        while x < h
            invariant
                x <= h,
                c < w,
                n == s.len(),
                s.len() == w * h,
                datos@.len() == s.len(),
                acum@.len() == h + 1,
                acum@[0] == 0,
                f == columna_de(s, w as int, c as int),
                forall|j: int| 0 <= j <= x ==> #[trigger] acum@[j] == cuantos_cumplen(f, j),
                forall|xq: int, yq: int|
                    0 <= xq < w && 0 <= yq < h ==> #[trigger] en(datos@, w as int, xq, yq) == if xq
                        < c {
                        ventana(
                            columna_de(s, w as int, xq),
                            ventana_ini(yq, r as int),
                            ventana_fin(yq, r as int, h as int),
                            erosion,
                        )
                    } else {
                        en(s, w as int, xq, yq)
                    },
            decreases h - x,
        {
            proof {
                lema_indice(c as int, x as int, w as int, h as int);
                lema_cuantos_cumplen(f, x as int, x + 1);
                lema_cuantos_cumplen(f, 0, x as int);
                assert(en(datos@, w as int, c as int, x as int) == f(x as int));
            }
            let v: usize = if datos[x * w + c] {
                1
            } else {
                0
            };
            let previo = acum[x];
            acum.set(x + 1, previo + v);
            x = x + 1;
        }
        let mut x: usize = 0;
        while x < h
            invariant
                x <= h,
                c < w,
                n == s.len(),
                s.len() == w * h,
                datos@.len() == s.len(),
                acum@.len() == h + 1,
                acum@[0] == 0,
                f == columna_de(s, w as int, c as int),
                forall|j: int| 0 <= j <= h ==> #[trigger] acum@[j] == cuantos_cumplen(f, j),
                forall|xq: int, yq: int|
                    0 <= xq < w && 0 <= yq < h ==> #[trigger] en(datos@, w as int, xq, yq) == if xq
                        < c || (xq == c && yq < x) {
                        ventana(
                            columna_de(s, w as int, xq),
                            ventana_ini(yq, r as int),
                            ventana_fin(yq, r as int, h as int),
                            erosion,
                        )
                    } else {
                        en(s, w as int, xq, yq)
                    },
            decreases h - x,
        {
            let (a, b) = limites(x, r, h);
            proof {
                lema_indice(c as int, x as int, w as int, h as int);
                lema_cuantos_cumplen(f, a as int, b as int);
            }
            let cuenta = acum[b] - acum[a];
            let valor = if erosion {
                cuenta == b - a
            } else {
                cuenta > 0
            };
            let ghost antes = datos@;
            datos.set(x * w + c, valor);
            proof {
                assert forall|xq: int, yq: int|
                    0 <= xq < w && 0 <= yq < h && !(xq == c && yq == x) implies #[trigger] en(
                    datos@,
                    w as int,
                    xq,
                    yq,
                ) == en(antes, w as int, xq, yq) by {
                    lema_indice(xq, yq, w as int, h as int);
                    if yq * w + xq == x * w + c {
                        lema_misma_celda(xq, yq, c as int, x as int, w as int);
                    }
                }
            }
            x = x + 1;
        }
        c = c + 1;
    }
    proof {
        assert forall|p: int| 0 <= p < s.len() implies #[trigger] datos@[p]
            == pasada_vertical_spec(s, w as int, h as int, r as int, erosion)[p] by {
            lema_descomponer(p, w as int, h as int);
            assert(en(datos@, w as int, p % w as int, p / w as int) == datos@[p]);
        }
        assert(datos@ =~= pasada_vertical_spec(s, w as int, h as int, r as int, erosion));
    }
}

/// Dos píxeles con la misma posición son el mismo.
pub proof fn lema_misma_celda(x1: int, y1: int, x2: int, y2: int, w: int)
    requires
        0 <= x1 < w,
        0 <= x2 < w,
        0 <= y1,
        0 <= y2,
        y1 * w + x1 == y2 * w + x2,
    ensures
        x1 == x2,
        y1 == y2,
{
    vstd::arithmetic::div_mod::lemma_fundamental_div_mod_converse(y1 * w + x1, w, y1, x1);
    vstd::arithmetic::div_mod::lemma_fundamental_div_mod_converse(y2 * w + x2, w, y2, x2);
}

/// El cierre morfológico de radio `r`: dilatar y luego erosionar con un
/// cuadrado de lado `2r + 1` (recortado a la imagen), cada uno en una pasada
/// horizontal y otra vertical.
pub open spec fn cierre(s: Seq<bool>, w: int, h: int, r: int) -> Seq<bool> {
    let dilatada = pasada_vertical_spec(pasada_horizontal_spec(s, w, r, false), w, h, r, false);
    pasada_vertical_spec(pasada_horizontal_spec(dilatada, w, r, true), w, h, r, true)
}

/// Cierre morfológico con un cuadrado de lado `2r+1`: dilatar y luego
/// erosionar, cada uno separable en una pasada horizontal y otra vertical.
pub fn cerrar(datos: &mut Vec<bool>, w: usize, h: usize, r: usize)
    requires
        old(datos)@.len() == w * h,
        w < usize::MAX,
        h < usize::MAX,
    ensures
        final(datos)@ == cierre(old(datos)@, w as int, h as int, r as int),
{
    pasada_horizontal(datos, w, h, r, false);
    pasada_vertical(datos, w, h, r, false);
    pasada_horizontal(datos, w, h, r, true);
    pasada_vertical(datos, w, h, r, true);
}


/// El píxel `i` de una imagen de `w`×`h` está en su borde.
pub open spec fn en_borde(i: int, w: int, h: int) -> bool {
    let (x, y) = (i % w, i / w);
    x == 0 || x == w - 1 || y == 0 || y == h - 1
}

/// `j` es uno de los cuatro vecinos (izquierda, derecha, arriba, abajo) de
/// `i` dentro de una imagen de `w`×`h`.
pub open spec fn vecino(i: int, j: int, w: int, h: int) -> bool {
    let (x, y) = (i % w, i / w);
    ||| x > 0 && j == i - 1
    ||| x + 1 < w && j == i + 1
    ||| y > 0 && j == i - w
    ||| y + 1 < h && j == i + w
}

/// `e` contiene todo el fondo del borde y, con cada píxel suyo, sus vecinos
/// de fondo.
pub open spec fn cerrado(e: Set<int>, s: Seq<bool>, w: int, h: int) -> bool {
    &&& forall|i: int| 0 <= i < s.len() && en_borde(i, w, h) && !s[i] ==> #[trigger] e.contains(i)
    &&& forall|i: int, j: int|
        #![trigger e.contains(i), vecino(i, j, w, h)]
        e.contains(i) && 0 <= i < s.len() && 0 <= j < s.len() && vecino(i, j, w, h) && !s[j]
            ==> e.contains(j)
}

/// El píxel `i` es fondo conectado (por vecinos de fondo) con el borde: está
/// en todo conjunto cerrado.
pub open spec fn exterior(s: Seq<bool>, w: int, h: int, i: int) -> bool {
    forall|e: Set<int>| cerrado(e, s, w, h) ==> #[trigger] e.contains(i)
}

/// La máscara sin huecos: figura todo lo que no es fondo exterior.
pub open spec fn sin_huecos(s: Seq<bool>, w: int, h: int) -> Seq<bool> {
    Seq::new(s.len(), |i: int| !exterior(s, w, h, i))
}

/// Los vecinos del píxel `i` caen dentro de la imagen.
proof fn lema_vecinos(i: int, w: int, h: int)
    requires
        0 <= i < w * h,
        1 <= w,
        1 <= h,
    ensures
        0 <= i % w < w,
        0 <= i / w < h,
        i % w > 0 ==> 0 <= i - 1,
        i % w + 1 < w ==> i + 1 < w * h,
        i / w > 0 ==> 0 <= i - w,
        i / w + 1 < h ==> i + w < w * h,
{
    lema_descomponer(i, w, h);
    let (x, y) = (i % w, i / w);
    lema_indice(x, y, w, h);
    if y > 0 {
        assert(y * w >= w) by (nonlinear_arith)
            requires
                y >= 1,
                w >= 1,
        ;
    }
    if y + 1 < h {
        lema_indice(x, y + 1, w, h);
        assert((y + 1) * w == y * w + w) by (nonlinear_arith);
    }
}

/// Cada píxel de la lista del borde está en el borde.
proof fn lema_borde_es_borde(w: int, h: int, k: int)
    requires
        1 <= w,
        1 <= h,
        0 <= k < crate::mascara::borde(w, h).len(),
    ensures
        en_borde(crate::mascara::borde(w, h)[k], w, h),
{
    let b = crate::mascara::borde(w, h);
    if k < 2 * w {
        let x = k / 2;
        crate::mascara::lema_borde_columna(w, h, x);
        if k % 2 == 0 {
            assert(k == 2 * x);
            lema_misma_pos(x, 0, w);
        } else {
            assert(k == 2 * x + 1);
            lema_misma_pos(x, h - 1, w);
        }
    } else {
        let y = (k - 2 * w) / 2;
        crate::mascara::lema_borde_fila(w, h, y);
        if (k - 2 * w) % 2 == 0 {
            assert(k == 2 * w + 2 * y);
            lema_misma_pos(0, y, w);
        } else {
            assert(k == 2 * w + 2 * y + 1);
            lema_misma_pos(w - 1, y, w);
        }
    }
}

/// El píxel en la posición `y * w + x` es `(x, y)`.
proof fn lema_misma_pos(x: int, y: int, w: int)
    requires
        0 <= x < w,
        0 <= y,
    ensures
        (y * w + x) % w == x,
        (y * w + x) / w == y,
{
    vstd::arithmetic::div_mod::lemma_fundamental_div_mod_converse(y * w + x, w, y, x);
}

/// Marca como figura todo el fondo que no esté conectado (4-vecinos) con el
/// borde de la imagen.
pub fn rellenar_huecos(datos: &mut Vec<bool>, w: usize, h: usize)
    requires
        old(datos)@.len() == w * h,
        2 * w + 2 * h <= usize::MAX,
    ensures
        final(datos)@ == sin_huecos(old(datos)@, w as int, h as int),
{
    let ghost s = datos@;
    let n = datos.len();
    if n == 0 {
        assert(datos@ =~= sin_huecos(s, w as int, h as int));
        return;
    }
    assert(1 <= w && 1 <= h) by (nonlinear_arith)
        requires
            w * h == n,
            n > 0,
    ;
    let mut fuera: Vec<bool> = vec![false; n];
    let mut pila = crate::mascara::indices_borde(w, h);
    let ghost mut marcados: Set<int> = Set::empty();
    // Por qué está cada píxel en la pila: -1 si es del borde, o el píxel
    // marcado del que es vecino.
    let ghost mut origen: Seq<int> = Seq::new(pila@.len(), |k: int| -1int);
    proof {
        assert forall|i: int| 0 <= i < n && en_borde(i, w as int, h as int) implies pila@.contains(
            i as usize,
        ) by {
            lema_descomponer(i, w as int, h as int);
            let (x, y) = (i % w as int, i / w as int);
            assert(i == y * w + x);
            if y == 0 {
                assert(y * w == 0);
                crate::mascara::lema_borde_columna(w as int, h as int, x);
                assert(pila@[2 * x] == i);
            } else if y == h - 1 {
                crate::mascara::lema_borde_columna(w as int, h as int, x);
                assert(pila@[2 * x + 1] == i);
            } else if x == 0 {
                crate::mascara::lema_borde_fila(w as int, h as int, y);
                assert(pila@[2 * w + 2 * y] == i);
            } else {
                crate::mascara::lema_borde_fila(w as int, h as int, y);
                assert(pila@[2 * w + 2 * y + 1] == i);
            }
        }
        assert forall|k: int| 0 <= k < pila@.len() implies en_borde(
            #[trigger] pila@[k] as int,
            w as int,
            h as int,
        ) by {
            lema_borde_es_borde(w as int, h as int, k);
        }
        vstd::set_lib::lemma_int_range(0, n as int);
    }
    while pila.len() > 0
        invariant
            datos@ == s,
            s.len() == n,
            n == w * h,
            1 <= w,
            1 <= h,
            fuera@.len() == n,
            marcados.finite(),
            marcados.subset_of(vstd::set_lib::set_int_range(0, n as int)),
            vstd::set_lib::set_int_range(0, n as int).finite(),
            vstd::set_lib::set_int_range(0, n as int).len() == n,
            forall|i: int| 0 <= i < n ==> (fuera@[i] <==> marcados.contains(i)),
            forall|i: int| #[trigger] marcados.contains(i) ==> !s[i] && exterior(s, w as int, h as int, i),
            origen.len() == pila@.len(),
            forall|k: int| 0 <= k < pila@.len() ==> #[trigger] pila@[k] < n,
            forall|k: int|
                0 <= k < pila@.len() ==> (#[trigger] origen[k] == -1 && en_borde(
                    pila@[k] as int,
                    w as int,
                    h as int,
                )) || (marcados.contains(origen[k]) && 0 <= origen[k] < n && vecino(
                    origen[k],
                    pila@[k] as int,
                    w as int,
                    h as int,
                )),
            forall|i: int|
                0 <= i < n && en_borde(i, w as int, h as int) && !s[i] ==> #[trigger] marcados.contains(i)
                    || pila@.contains(i as usize),
            forall|i: int, j: int|
                #![trigger marcados.contains(i), vecino(i, j, w as int, h as int)]
                marcados.contains(i) && 0 <= i < n && 0 <= j < n && vecino(i, j, w as int, h as int)
                    && !s[j] ==> marcados.contains(j) || pila@.contains(j as usize),
        decreases 5 * (n - marcados.len()) + pila@.len(),
    {
        proof {
            vstd::set_lib::lemma_len_subset(marcados, vstd::set_lib::set_int_range(0, n as int));
        }
        let ghost antes = pila@;
        let ghost origen_antes = origen;
        let v = pila.pop().unwrap();
        proof {
            origen = origen.drop_last();
            assert(antes == pila@.push(v));
            assert forall|j: usize| antes.contains(j) && j != v implies pila@.contains(j) by {
                let k = choose|k: int| 0 <= k < antes.len() && antes[k] == j;
                assert(pila@[k] == j);
            }
        }
        if datos[v] || fuera[v] {
            continue;
        }
        let ghost padre = origen_antes.last();
        proof {
            let k = antes.len() - 1;
            assert(antes[k] == v);
            assert(origen_antes[k] == padre);
            assert forall|e: Set<int>| cerrado(e, s, w as int, h as int) implies #[trigger] e.contains(
                v as int,
            ) by {
                if padre != -1 {
                    assert(exterior(s, w as int, h as int, padre));
                    assert(e.contains(padre));
                    assert(vecino(padre, v as int, w as int, h as int));
                }
            }
        }
        fuera.set(v, true);
        proof {
            vstd::set::axiom_set_insert_len(marcados, v as int);
            marcados = marcados.insert(v as int);
        }
        let x = v % w;
        let y = v / w;
        proof {
            lema_vecinos(v as int, w as int, h as int);
        }
        let ghost base = pila@;
        let ghost k0 = pila@.len() as int;
        if x > 0 {
            pila.push(v - 1);
            proof {
                origen = origen.push(v as int);
            }
        }
        let ghost k1 = pila@.len() as int;
        if x + 1 < w {
            pila.push(v + 1);
            proof {
                origen = origen.push(v as int);
            }
        }
        let ghost k2 = pila@.len() as int;
        if y > 0 {
            pila.push(v - w);
            proof {
                origen = origen.push(v as int);
            }
        }
        let ghost k3 = pila@.len() as int;
        if y + 1 < h {
            pila.push(v + w);
            proof {
                origen = origen.push(v as int);
            }
        }
        proof {
            assert(pila@.subrange(0, base.len() as int) =~= base);
            assert forall|j: usize| base.contains(j) implies pila@.contains(j) by {
                let k = choose|k: int| 0 <= k < base.len() && base[k] == j;
                assert(pila@[k] == j);
            }
            assert forall|j: int|
                0 <= j < n && vecino(v as int, j, w as int, h as int) implies pila@.contains(
                j as usize,
            ) by {
                if x > 0 && j == v - 1 {
                    assert(pila@[k0] == j);
                } else if x + 1 < w && j == v + 1 {
                    assert(pila@[k1] == j);
                } else if y > 0 && j == v - w {
                    assert(pila@[k2] == j);
                } else {
                    assert(pila@[k3] == j);
                }
            }
            vstd::set_lib::lemma_len_subset(marcados, vstd::set_lib::set_int_range(0, n as int));
        }
    }
    proof {
        assert(cerrado(marcados, s, w as int, h as int));
        assert forall|k: int| 0 <= k < n implies (fuera@[k] <==> exterior(
            s,
            w as int,
            h as int,
            k,
        )) by {
            if exterior(s, w as int, h as int, k) {
                assert(marcados.contains(k));
                assert(fuera@[k]);
            }
            if fuera@[k] {
                assert(marcados.contains(k));
                assert(exterior(s, w as int, h as int, k));
            }
        }
    }
    let mut i: usize = 0;
    while i < n
        invariant
            i <= n,
            n == w * h,
            datos@.len() == n,
            s.len() == n,
            fuera@.len() == n,
            forall|k: int| 0 <= k < i ==> datos@[k] == !fuera@[k],
            forall|k: int| i <= k < n ==> datos@[k] == s[k],
            forall|k: int| 0 <= k < n ==> (fuera@[k] <==> exterior(s, w as int, h as int, k)),
        decreases n - i,
    {
        let f = fuera[i];
        datos.set(i, !f);
        i = i + 1;
    }
    proof {
        let t = sin_huecos(s, w as int, h as int);
        assert forall|k: int| 0 <= k < n implies datos@[k] == t[k] by {
            assert(datos@[k] == !fuera@[k]);
            assert(t[k] == !exterior(s, w as int, h as int, k));
        }
        assert(datos@ =~= t);
    }
}

/// Rellenar los huecos nunca quita figura: todo píxel de figura sigue
/// siéndolo, porque el fondo exterior solo contiene fondo.
pub proof fn ley_sin_huecos_conserva_figura(s: Seq<bool>, w: int, h: int, i: int)
    requires
        0 <= i < s.len(),
        s[i],
    ensures
        sin_huecos(s, w, h)[i],
{
    let fondo = Set::new(|j: int| 0 <= j < s.len() && !s[j]);
    assert(cerrado(fondo, s, w, h));
    assert(!fondo.contains(i));
}

/// Cerrar nunca quita figura: cada píxel de figura queda dentro de la
/// dilatación de todos los de su ventana, así que la erosión lo conserva.
pub proof fn ley_cierre_conserva_figura(s: Seq<bool>, w: int, h: int, r: int, x: int, y: int)
    requires
        s.len() == w * h,
        0 <= x < w,
        0 <= y < h,
        0 <= r,
        en(s, w, x, y),
    ensures
        en(cierre(s, w, h, r), w, x, y),
{
    let d1 = pasada_horizontal_spec(s, w, r, false);
    let d2 = pasada_vertical_spec(d1, w, h, r, false);
    let e1 = pasada_horizontal_spec(d2, w, r, true);
    let e2 = pasada_vertical_spec(e1, w, h, r, true);
    assert(e2 == cierre(s, w, h, r));
    // La dilatación horizontal alcanza a los vecinos de la fila.
    assert forall|xx: int| 0 <= xx < w && x - r <= xx <= x + r implies #[trigger] d1[y * w + xx] by {
        lema_misma_pos(xx, y, w);
        crate::mascara::lema_indice(xx, y, w, h);
        assert(fila_de(s, w, y)(x));
    }
    // La vertical, a todo el cuadrado alrededor.
    assert forall|xx: int, yy: int|
        0 <= xx < w && x - r <= xx <= x + r && 0 <= yy < h && y - r <= yy <= y + r implies #[trigger] d2[yy
        * w + xx] by {
        lema_misma_pos(xx, yy, w);
        crate::mascara::lema_indice(xx, yy, w, h);
        assert(d1[y * w + xx]);
        assert(columna_de(d1, w, xx)(y));
    }
    // La erosión horizontal conserva la columna del píxel.
    assert forall|yy: int| 0 <= yy < h && y - r <= yy <= y + r implies #[trigger] e1[yy * w + x] by {
        lema_misma_pos(x, yy, w);
        crate::mascara::lema_indice(x, yy, w, h);
        assert forall|k: int|
            ventana_ini(x, r) <= k < ventana_fin(x, r, w) implies #[trigger] fila_de(d2, w, yy)(k) by {
            assert(d2[yy * w + k]);
        }
    }
    // Y la vertical, el píxel.
    lema_misma_pos(x, y, w);
    crate::mascara::lema_indice(x, y, w, h);
    assert forall|k: int| ventana_ini(y, r) <= k < ventana_fin(y, r, h) implies #[trigger] columna_de(
        e1,
        w,
        x,
    )(k) by {
        assert(e1[k * w + x]);
    }
}

} // verus!
