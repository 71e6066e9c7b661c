//! Separar figura de fondo: de los píxeles de una imagen a una máscara
//! binaria, y de la máscara a la rejilla de celdas.

use vstd::prelude::*;

use crate::morfologia::{cerrar, cierre, ley_sin_huecos_conserva_figura, rellenar_huecos, sin_huecos};
use crate::{Error, Opciones};

verus! {

/// Imagen RGBA de 8 bits por canal, fila a fila (4 bytes por píxel).
pub struct Imagen {
    pub ancho: usize,
    pub alto: usize,
    pub rgba: Vec<u8>,
}

impl Imagen {
    /// Tantos bytes como píxeles por cuatro.
    pub open spec fn bien_formada(self) -> bool {
        self.rgba@.len() == 4 * (self.ancho * self.alto)
    }

    /// El canal `c` (0 rojo, 1 verde, 2 azul, 3 alfa) del píxel `i`.
    pub open spec fn canal(self, i: int, c: int) -> u8 {
        self.rgba@[4 * i + c]
    }

    /// Una imagen de `ancho`×`alto` con esos bytes RGBA, si el largo cuadra.
    pub fn nueva(ancho: usize, alto: usize, rgba: Vec<u8>) -> (r: Option<Imagen>)
        ensures
            r matches Some(img) ==> img.bien_formada() && img.ancho == ancho && img.alto == alto
                && img.rgba@ == rgba@,
            r is None <==> rgba@.len() != 4 * (ancho * alto),
    {
        let largo = rgba.len();
        match ancho.checked_mul(alto) {
            None => None,
            Some(n) => {
                if largo % 4 == 0 && largo / 4 == n {
                    Some(Imagen { ancho, alto, rgba })
                } else {
                    None
                }
            },
        }
    }
}

/// Lo que `image` saca de unos bytes de imagen (PNG, JPEG, GIF, BMP o
/// WebP) pasado a RGBA de 8 bits: ancho, alto y bytes, o nada si no es una
/// imagen que sepa leer.
pub uninterp spec fn decodificada(bytes: Seq<u8>) -> Option<(nat, nat, Seq<u8>)>;

/// Decodifica con `image::load_from_memory` y convierte con
/// `DynamicImage::to_rgba8`.
///
/// Lo que se confía del crate: el resultado solo depende de los bytes
/// (`decodificada`), y una `RgbaImage` guarda cuatro bytes por píxel, fila a
/// fila (`into_raw`). Qué imagen sale de qué bytes no se dice.
#[verifier::external_body]
fn decodificar(bytes: &[u8]) -> (r: Result<Imagen, image::ImageError>)
    ensures
        match r {
            Ok(img) => img.bien_formada() && decodificada(bytes@) == Some(
                (img.ancho as nat, img.alto as nat, img.rgba@),
            ),
            Err(_) => decodificada(bytes@) is None,
        },
{
    let rgba = image::load_from_memory(bytes)?.to_rgba8();
    let (ancho, alto) = (rgba.width() as usize, rgba.height() as usize);
    Ok(Imagen { ancho, alto, rgba: rgba.into_raw() })
}

impl Imagen {
    /// La imagen que codifican unos bytes (PNG, JPEG, GIF, BMP o WebP), en
    /// RGBA.
    pub fn desde_bytes(bytes: &[u8]) -> (r: Result<Imagen, Error>)
        ensures
            match r {
                Ok(img) => img.bien_formada() && decodificada(bytes@) == Some(
                    (img.ancho as nat, img.alto as nat, img.rgba@),
                ),
                Err(e) => e is Imagen && decodificada(bytes@) is None,
            },
    {
        match decodificar(bytes) {
            Ok(img) => Ok(img),
            Err(e) => Err(Error::Imagen(e)),
        }
    }
}

/// Máscara binaria: `true` = píxel de figura.
pub struct Mascara {
    pub ancho: usize,
    pub alto: usize,
    pub datos: Vec<bool>,
}

impl Mascara {
    /// Un valor por píxel.
    pub open spec fn bien_formada(self) -> bool {
        self.datos@.len() == self.ancho * self.alto
    }

    /// El píxel `(x, y)`.
    pub open spec fn en(self, x: int, y: int) -> bool {
        self.datos@[y * self.ancho + x]
    }

    /// El píxel `(x, y)`.
    pub fn get(&self, x: usize, y: usize) -> (b: bool)
        requires
            self.bien_formada(),
            x < self.ancho,
            y < self.alto,
        ensures
            b == self.en(x as int, y as int),
    {
        let n = self.datos.len();
        proof {
            lema_indice(x as int, y as int, self.ancho as int, self.alto as int);
        }
        self.datos[y * self.ancho + x]
    }
}

/// El píxel de origen en un eje, si cae dentro de `0..max`.
pub open spec fn origen_valido(o: Option<usize>, max: int) -> bool {
    o matches Some(v) ==> v < max
}

impl Mascara {
    /// La misma figura vista a través de un cambio de escala: el píxel
    /// `(x, y)` toma el valor del píxel `(origen_x[x], origen_y[y])`, o es
    /// fondo si alguno de los dos cae fuera del lienzo (`None`).
    pub fn escalar(&self, origen_x: &[Option<usize>], origen_y: &[Option<usize>]) -> (m: Mascara)
        requires
            self.bien_formada(),
            origen_x@.len() == self.ancho,
            origen_y@.len() == self.alto,
            forall|x: int| 0 <= x < self.ancho ==> origen_valido(#[trigger] origen_x@[x], self.ancho as int),
            forall|y: int| 0 <= y < self.alto ==> origen_valido(#[trigger] origen_y@[y], self.alto as int),
        ensures
            m.ancho == self.ancho,
            m.alto == self.alto,
            m.bien_formada(),
            forall|x: int, y: int|
                0 <= x < self.ancho && 0 <= y < self.alto ==> #[trigger] m.en(x, y) == match (
                    origen_x@[x],
                    origen_y@[y],
                ) {
                    (Some(sx), Some(sy)) => self.en(sx as int, sy as int),
                    _ => false,
                },
    {
        let (w, h) = (self.ancho, self.alto);
        let mut datos: Vec<bool> = Vec::new();
        let mut y: usize = 0;
        while y < h
            invariant
                self.bien_formada(),
                w == self.ancho,
                h == self.alto,
                origen_x@.len() == w,
                origen_y@.len() == h,
                forall|x: int| 0 <= x < w ==> origen_valido(#[trigger] origen_x@[x], w as int),
                forall|y: int| 0 <= y < h ==> origen_valido(#[trigger] origen_y@[y], h as int),
                y <= h,
                datos@.len() == y * w,
                forall|xx: int, yy: int|
                    0 <= xx < w && 0 <= yy < y ==> #[trigger] datos@[yy * w + xx] == match (
                        origen_x@[xx],
                        origen_y@[yy],
                    ) {
                        (Some(sx), Some(sy)) => self.en(sx as int, sy as int),
                        _ => false,
                    },
            decreases h - y,
        {
            let mut x: usize = 0;
            while x < w
                invariant
                    self.bien_formada(),
                    w == self.ancho,
                    h == self.alto,
                    origen_x@.len() == w,
                    origen_y@.len() == h,
                    forall|x: int| 0 <= x < w ==> origen_valido(#[trigger] origen_x@[x], w as int),
                    forall|y: int| 0 <= y < h ==> origen_valido(#[trigger] origen_y@[y], h as int),
                    y < h,
                    x <= w,
                    datos@.len() == y * w + x,
                    forall|xx: int, yy: int|
                        0 <= xx < w && 0 <= yy < y ==> #[trigger] datos@[yy * w + xx] == match (
                            origen_x@[xx],
                            origen_y@[yy],
                        ) {
                            (Some(sx), Some(sy)) => self.en(sx as int, sy as int),
                            _ => false,
                        },
                    forall|xx: int|
                        0 <= xx < x ==> #[trigger] datos@[y * w + xx] == match (
                            origen_x@[xx],
                            origen_y@[y as int],
                        ) {
                            (Some(sx), Some(sy)) => self.en(sx as int, sy as int),
                            _ => false,
                        },
                decreases w - x,
            {
                proof {
                    lema_indice(x as int, y as int, w as int, h as int);
                }
                let b = match (origen_x[x], origen_y[y]) {
                    (Some(sx), Some(sy)) => {
                        assert(origen_valido(origen_x@[x as int], w as int));
                        assert(origen_valido(origen_y@[y as int], h as int));
                        self.get(sx, sy)
                    },
                    _ => false,
                };
                let ghost antes = datos@;
                datos.push(b);
                proof {
                    assert forall|xx: int, yy: int| 0 <= xx < w && 0 <= yy < y implies #[trigger] datos@[yy
                        * w + xx] == antes[yy * w + xx] by {
                        lema_indice(xx, yy, w as int, y as int);
                        assert(w * y == y * w) by (nonlinear_arith);
                    }
                }
                x = x + 1;
            }
            proof {
                assert((y + 1) * w == y * w + w) by (nonlinear_arith);
                assert forall|xx: int, yy: int|
                    0 <= xx < w && 0 <= yy < y + 1 implies #[trigger] datos@[yy * w + xx] == match (
                        origen_x@[xx],
                        origen_y@[yy],
                    ) {
                        (Some(sx), Some(sy)) => self.en(sx as int, sy as int),
                        _ => false,
                    } by {
                    if yy < y {
                    } else {
                        assert(yy == y);
                    }
                }
            }
            y = y + 1;
        }
        proof {
            assert(h * w == w * h) by (nonlinear_arith);
        }
        Mascara { ancho: w, alto: h, datos }
    }
}

/// El píxel `(x, y)` de una imagen de `w`×`h` cae dentro.
pub proof fn lema_indice(x: int, y: int, w: int, h: int)
    requires
        0 <= x < w,
        0 <= y < h,
    ensures
        0 <= y * w + x < w * h,
        y * w + x < y * w + w <= w * h,
{
    assert(y * w + w == (y + 1) * w) by (nonlinear_arith);
    assert((y + 1) * w <= h * w) by (nonlinear_arith)
        requires
            y + 1 <= h,
            0 <= w,
    ;
    assert(h * w == w * h) by (nonlinear_arith);
    assert(0 <= y * w) by (nonlinear_arith)
        requires
            0 <= y,
            0 <= w,
    ;
}

/// Cuántos valores de `s` son menores que `v`.
pub open spec fn menores(s: Seq<u8>, v: int) -> nat
    decreases s.len(),
{
    if s.len() == 0 {
        0
    } else {
        menores(s.drop_last(), v) + if (s.last() as int) < v {
            1nat
        } else {
            0nat
        }
    }
}

/// `v` es el valor que queda en la posición `k` (desde 0) al ordenar `s`:
/// hay a lo sumo `k` valores menores y más de `k` que no lo superan.
pub open spec fn es_kesimo(s: Seq<u8>, k: int, v: u8) -> bool {
    menores(s, v as int) <= k < menores(s, v + 1)
}

proof fn lema_menores_crece(s: Seq<u8>, a: int, b: int)
    requires
        a <= b,
    ensures
        menores(s, a) <= menores(s, b) <= s.len(),
    decreases s.len(),
{
    if s.len() > 0 {
        lema_menores_crece(s.drop_last(), a, b);
    }
}

proof fn lema_menores_extremos(s: Seq<u8>)
    ensures
        menores(s, 0) == 0,
        menores(s, 256) == s.len(),
    decreases s.len(),
{
    if s.len() > 0 {
        lema_menores_extremos(s.drop_last());
    }
}

/// El valor en la posición `k` de `s` ordenada es único.
pub proof fn lema_kesimo_unico(s: Seq<u8>, k: int, a: u8, b: u8)
    requires
        es_kesimo(s, k, a),
        es_kesimo(s, k, b),
    ensures
        a == b,
{
    if a < b {
        lema_menores_crece(s, a + 1, b as int);
    } else if b < a {
        lema_menores_crece(s, b + 1, a as int);
    }
}

/// El valor en la posición `k` de `s` ordenada (sin ordenar: con un
/// histograma).
pub fn kesimo(s: &Vec<u8>, k: usize) -> (v: u8)
    requires
        k < s@.len(),
    ensures
        es_kesimo(s@, k as int, v),
{
    let mut hist: Vec<usize> = Vec::new();
    let mut v: usize = 0;
    while v < 256
        invariant
            v <= 256,
            hist@.len() == v,
            forall|j: int| 0 <= j < v ==> hist@[j] == 0,
        decreases 256 - v,
    {
        hist.push(0);
        v = v + 1;
    }
    let mut i: usize = 0;
    while i < s.len()
        invariant
            i <= s@.len(),
            hist@.len() == 256,
            forall|j: int|
                0 <= j < 256 ==> #[trigger] hist@[j] == menores(s@.take(i as int), j + 1) - menores(
                    s@.take(i as int),
                    j,
                ),
            forall|j: int| 0 <= j < 256 ==> #[trigger] hist@[j] <= i,
        decreases s.len() - i,
    {
        let x = s[i];
        proof {
            assert(s@.take(i + 1).drop_last() =~= s@.take(i as int));
            assert forall|j: int| 0 <= j < 256 implies #[trigger] menores(s@.take(i as int), j)
                <= menores(s@.take(i as int), j + 1) by {
                lema_menores_crece(s@.take(i as int), j, j + 1);
            }
        }
        let c = hist[x as usize];
        hist.set(x as usize, c + 1);
        i = i + 1;
    }
    assert(s@.take(s.len() as int) =~= s@);
    proof {
        lema_menores_extremos(s@);
    }
    let n = s.len();
    let mut acum: usize = 0;
    let mut v: usize = 0;
    loop
        invariant
            v < 256,
            n == s@.len(),
            hist@.len() == 256,
            forall|j: int|
                0 <= j < 256 ==> #[trigger] hist@[j] == menores(s@, j + 1) - menores(s@, j),
            acum == menores(s@, v as int),
            acum <= k,
            k < s@.len(),
            menores(s@, 256) == s@.len(),
        decreases 256 - v,
    {
        proof {
            lema_menores_crece(s@, v as int, v + 1);
            lema_menores_crece(s@, v + 1, 256);
        }
        let h = hist[v];
        if acum + h > k {
            return v as u8;
        }
        acum = acum + h;
        v = v + 1;
    }
}

/// El valor en la posición `k` de `s` ordenada.
pub open spec fn kesimo_de(s: Seq<u8>, k: int) -> u8 {
    choose|v: u8| es_kesimo(s, k, v)
}

proof fn lema_kesimo_de(s: Seq<u8>, k: int, v: u8)
    requires
        es_kesimo(s, k, v),
    ensures
        kesimo_de(s, k) == v,
{
    lema_kesimo_unico(s, k, v, kesimo_de(s, k));
}

/// Los píxeles del borde de una imagen de `w`×`h`, en el orden en que se
/// recorren: primero cada columna (arriba y abajo), luego cada fila
/// (izquierda y derecha). Las esquinas salen dos veces.
pub open spec fn borde(w: int, h: int) -> Seq<int> {
    Seq::new((2 * w) as nat, |j: int| if j % 2 == 0 { j / 2 } else { (h - 1) * w + j / 2 })
        + Seq::new(
        (2 * h) as nat,
        |j: int| if j % 2 == 0 { (j / 2) * w } else { (j / 2) * w + w - 1 },
    )
}

pub(crate) proof fn lema_borde_columna(w: int, h: int, x: int)
    requires
        0 <= x < w,
        1 <= h,
    ensures
        borde(w, h).len() == 2 * w + 2 * h,
        borde(w, h)[2 * x] == x,
        borde(w, h)[2 * x + 1] == (h - 1) * w + x,
{
    assert((2 * x) % 2 == 0 && (2 * x) / 2 == x);
    assert((2 * x + 1) % 2 == 1 && (2 * x + 1) / 2 == x);
}

pub(crate) proof fn lema_borde_fila(w: int, h: int, y: int)
    requires
        0 <= y < h,
        1 <= w,
    ensures
        borde(w, h).len() == 2 * w + 2 * h,
        borde(w, h)[2 * w + 2 * y] == y * w,
        borde(w, h)[2 * w + 2 * y + 1] == y * w + w - 1,
{
    assert((2 * y) % 2 == 0 && (2 * y) / 2 == y);
    assert((2 * y + 1) % 2 == 1 && (2 * y + 1) / 2 == y);
}

/// Los píxeles del borde, en orden.
pub(crate) fn indices_borde(w: usize, h: usize) -> (r: Vec<usize>)
    requires
        1 <= w,
        1 <= h,
        w * h <= usize::MAX,
        2 * w + 2 * h <= usize::MAX,
    ensures
        r@.len() == borde(w as int, h as int).len(),
        forall|j: int| 0 <= j < r@.len() ==> #[trigger] r@[j] == borde(w as int, h as int)[j],
        forall|j: int| 0 <= j < r@.len() ==> #[trigger] r@[j] < w * h,
{
    let ghost b = borde(w as int, h as int);
    let ghost n: int = w * h;
    let mut r: Vec<usize> = Vec::new();
    let mut x: usize = 0;
    while x < w
        invariant
            x <= w,
            1 <= h,
            w * h <= usize::MAX,
            b == borde(w as int, h as int),
            r@.len() == 2 * x,
            n == w * h,
            forall|j: int| 0 <= j < r@.len() ==> #[trigger] r@[j] == b[j],
            forall|j: int| 0 <= j < r@.len() ==> #[trigger] r@[j] < n,
        decreases w - x,
    {
        proof {
            lema_indice(x as int, h - 1, w as int, h as int);
            lema_indice(x as int, 0, w as int, h as int);
            lema_borde_columna(w as int, h as int, x as int);
        }
        r.push(x);
        r.push((h - 1) * w + x);
        x = x + 1;
    }
    let mut y: usize = 0;
    while y < h
        invariant
            y <= h,
            1 <= w,
            w * h <= usize::MAX,
            b == borde(w as int, h as int),
            r@.len() == 2 * w + 2 * y,
            n == w * h,
            forall|j: int| 0 <= j < r@.len() ==> #[trigger] r@[j] == b[j],
            forall|j: int| 0 <= j < r@.len() ==> #[trigger] r@[j] < n,
        decreases h - y,
    {
        proof {
            lema_indice(0, y as int, w as int, h as int);
            lema_indice(w - 1, y as int, w as int, h as int);
            lema_borde_fila(w as int, h as int, y as int);
        }
        r.push(y * w);
        r.push(y * w + w - 1);
        y = y + 1;
    }
    r
}

/// Los valores del canal `c` en el borde de la imagen, en orden.
pub open spec fn borde_canal(img: Imagen, c: int) -> Seq<u8> {
    borde(img.ancho as int, img.alto as int).map_values(|i: int| img.canal(i, c))
}

proof fn lema_borde_cabe(w: int, h: int)
    requires
        1 <= w,
        1 <= h,
    ensures
        w + h <= w * h + 1,
{
    assert((w - 1) * (h - 1) >= 0) by (nonlinear_arith)
        requires
            1 <= w,
            1 <= h,
    ;
    assert((w - 1) * (h - 1) == w * h - w - h + 1) by (nonlinear_arith);
}

/// Mediana por canal (rojo, verde, azul) de los píxeles del borde: el valor
/// que queda en el medio (posición `n / 2`) al ordenarlos.
pub fn color_fondo(img: &Imagen) -> (f: [u8; 3])
    requires
        img.bien_formada(),
        1 <= img.ancho,
        1 <= img.alto,
    ensures
        forall|c: int|
            0 <= c < 3 ==> f@[c] == kesimo_de(
                borde_canal(*img, c),
                (borde(img.ancho as int, img.alto as int).len() / 2) as int,
            ),
{
    let n = img.rgba.len();
    proof {
        lema_borde_cabe(img.ancho as int, img.alto as int);
    }
    let idx = indices_borde(img.ancho, img.alto);
    let mut canales: [u8; 3] = [0, 0, 0];
    let mut c: usize = 0;
    while c < 3
        invariant
            c <= 3,
            n == img.rgba@.len(),
            img.bien_formada(),
            idx@.len() == borde(img.ancho as int, img.alto as int).len(),
            idx@.len() > 0,
            forall|j: int|
                0 <= j < idx@.len() ==> idx@[j] == borde(img.ancho as int, img.alto as int)[j]
                    && idx@[j] < img.ancho * img.alto,
            forall|q: int|
                0 <= q < c ==> canales@[q] == kesimo_de(
                    borde_canal(*img, q),
                    (borde(img.ancho as int, img.alto as int).len() / 2) as int,
                ),
        decreases 3 - c,
    {
        let mut vals: Vec<u8> = Vec::new();
        let mut j: usize = 0;
        while j < idx.len()
            invariant
                j <= idx@.len(),
                c < 3,
                n == img.rgba@.len(),
                img.bien_formada(),
                forall|t: int| 0 <= t < idx@.len() ==> idx@[t] < img.ancho * img.alto,
                vals@.len() == j,
                forall|t: int| 0 <= t < j ==> vals@[t] == img.canal(idx@[t] as int, c as int),
            decreases idx.len() - j,
        {
            let i = idx[j];
            vals.push(img.rgba[4 * i + c]);
            j = j + 1;
        }
        let v = kesimo(&vals, vals.len() / 2);
        proof {
            assert(vals@ =~= borde_canal(*img, c as int));
            lema_kesimo_de(vals@, (vals@.len() / 2) as int, v);
        }
        canales[c] = v;
        c = c + 1;
    }
    canales
}

/// Valores de `dist` en el borde, en orden.
pub open spec fn borde_valores(dist: Seq<u8>, w: int, h: int) -> Seq<u8> {
    borde(w, h).map_values(|i: int| dist[i])
}

/// Umbral automático: el de Otsu de las distancias (`otsu`), sin pasar del
/// ruido del fondo medido en el borde (el valor del percentil 99) más un
/// margen de 10. Otsu tiende a cortar entre los tonos de la figura y dejar
/// los bordes suaves como fondo.
pub fn umbral_auto(dist: &Vec<u8>, w: usize, h: usize, otsu: u8) -> (t: u8)
    requires
        dist@.len() == w * h,
        1 <= w,
        1 <= h,
        198 * (w + h) <= usize::MAX,
    ensures
        ({
            let b = borde_valores(dist@, w as int, h as int);
            let ruido = kesimo_de(b, (b.len() * 99 / 100) as int);
            let tope: int = if ruido + 10 > 255 {
                255
            } else {
                ruido + 10
            };
            t as int == if (otsu as int) < tope {
                otsu as int
            } else {
                tope
            }
        }),
{
    let n = dist.len();
    let idx = indices_borde(w, h);
    let mut vals: Vec<u8> = Vec::new();
    let mut j: usize = 0;
    while j < idx.len()
        invariant
            j <= idx@.len(),
            dist@.len() == w * h,
            forall|t: int| 0 <= t < idx@.len() ==> idx@[t] < w * h,
            vals@.len() == j,
            forall|t: int| 0 <= t < j ==> vals@[t] == dist@[idx@[t] as int],
        decreases idx.len() - j,
    {
        vals.push(dist[idx[j]]);
        j = j + 1;
    }
    let k = vals.len() * 99 / 100;
    let ruido = kesimo(&vals, k);
    proof {
        assert(vals@ =~= borde_valores(dist@, w as int, h as int));
        lema_kesimo_de(vals@, k as int, ruido);
    }
    let tope = ruido.saturating_add(10);
    if otsu < tope {
        otsu
    } else {
        tope
    }
}

/// La distancia de nivel `k` se alcanza con una distancia RGB al cuadrado
/// `q`: `√q · 255 / 441,7 ≥ k − ½` (para `k ≥ 1`), sin raíces.
pub open spec fn alcanza(q: int, k: int) -> bool {
    4 * q * 6502500 >= ((2 * k - 1) * 4417) * ((2 * k - 1) * 4417)
}

/// El mayor nivel hasta `k` que se alcanza (0 si ninguno).
pub open spec fn nivel_hasta(q: int, k: int) -> int
    decreases k,
{
    if k <= 0 {
        0
    } else if alcanza(q, k) {
        k
    } else {
        nivel_hasta(q, k - 1)
    }
}

/// La distancia al fondo en 0..=255 de un píxel a distancia RGB al cuadrado
/// `q`: la distancia euclídea, con la máxima (≈ 441,7) llevada a 255,
/// redondeada al entero más cercano y con tope en 255.
pub open spec fn nivel(q: int) -> int {
    nivel_hasta(q, 255)
}

proof fn lema_alcanza_decrece(q: int, a: int, b: int)
    requires
        1 <= a <= b,
        alcanza(q, b),
    ensures
        alcanza(q, a),
{
    let x = (2 * a - 1) * 4417;
    let y = (2 * b - 1) * 4417;
    assert(0 < x <= y);
    assert(x * x <= y * y) by (nonlinear_arith)
        requires
            0 < x <= y,
    ;
}

proof fn lema_nivel_hasta(q: int, lo: int, k: int)
    requires
        0 <= lo <= k,
        lo == 0 || alcanza(q, lo),
        forall|j: int| lo < j <= k ==> !alcanza(q, j),
    ensures
        nivel_hasta(q, k) == lo,
    decreases k,
{
    if k > lo {
        lema_nivel_hasta(q, lo, k - 1);
    }
}

/// El nivel 0..=255 de una distancia RGB al cuadrado (búsqueda binaria).
pub fn cuantizar(q: u32) -> (d: u8)
    requires
        q <= 3 * 255 * 255,
    ensures
        d as int == nivel(q as int),
{
    let mut lo: u64 = 0;
    let mut hi: u64 = 255;
    let qq: u64 = q as u64;
    while lo < hi
        invariant
            lo <= hi <= 255,
            qq == q,
            q <= 3 * 255 * 255,
            lo == 0 || alcanza(q as int, lo as int),
            hi == 255 || !alcanza(q as int, hi + 1),
        decreases hi - lo,
    {
        let medio = (lo + hi + 1) / 2;
        let a = 2 * medio - 1;
        let b = a * 4417;
        assert(b * b <= 2248253 * 2248253) by (nonlinear_arith)
            requires
                b <= 2248253,
        ;
        assert(4 * qq * 6502500 <= 4 * 195075 * 6502500) by (nonlinear_arith)
            requires
                qq <= 195075,
        ;
        if 4 * qq * 6502500 >= b * b {
            lo = medio;
        } else {
            hi = medio - 1;
        }
    }
    proof {
        assert forall|j: int| lo < j <= 255 implies !alcanza(q as int, j) by {
            if alcanza(q as int, j) {
                lema_alcanza_decrece(q as int, lo + 1, j);
            }
        }
        lema_nivel_hasta(q as int, lo as int, 255);
    }
    lo as u8
}

/// Distancia RGB al cuadrado del píxel `i` al color `f`.
pub open spec fn distancia_cuadrada(img: Imagen, i: int, f: Seq<u8>) -> int {
    (img.canal(i, 0) - f[0]) * (img.canal(i, 0) - f[0]) + (img.canal(i, 1) - f[1]) * (img.canal(i, 1)
        - f[1]) + (img.canal(i, 2) - f[2]) * (img.canal(i, 2) - f[2])
}

fn diferencia_cuadrada(a: u8, b: u8) -> (r: u32)
    ensures
        r == (a - b) * (a - b),
        r <= 255 * 255,
{
    let d: u32 = if a > b {
        (a - b) as u32
    } else {
        (b - a) as u32
    };
    assert(d * d <= 255 * 255) by (nonlinear_arith)
        requires
            d <= 255,
    ;
    assert(d * d == (a - b) * (a - b)) by (nonlinear_arith)
        requires
            d == a - b || d == b - a,
    ;
    d * d
}

/// La distancia de cada píxel al color de fondo `f`, en 0..=255.
pub fn distancias(img: &Imagen, f: [u8; 3]) -> (dist: Vec<u8>)
    requires
        img.bien_formada(),
    ensures
        dist@.len() == img.ancho * img.alto,
        forall|i: int|
            0 <= i < dist@.len() ==> #[trigger] dist@[i] as int == nivel(
                distancia_cuadrada(*img, i, f@),
            ),
{
    let largo = img.rgba.len();
    let n = largo / 4;
    let mut dist: Vec<u8> = Vec::new();
    let mut i: usize = 0;
    while i < n
        invariant
            i <= n,
            n == img.ancho * img.alto,
            largo == img.rgba@.len(),
            img.bien_formada(),
            dist@.len() == i,
            forall|j: int|
                0 <= j < i ==> #[trigger] dist@[j] as int == nivel(
                    distancia_cuadrada(*img, j, f@),
                ),
        decreases n - i,
    {
        let q = diferencia_cuadrada(img.rgba[4 * i], f[0]) + diferencia_cuadrada(
            img.rgba[4 * i + 1],
            f[1],
        ) + diferencia_cuadrada(img.rgba[4 * i + 2], f[2]);
        dist.push(cuantizar(q));
        i = i + 1;
    }
    dist
}

/// Algún píxel tiene transparencia (alfa por debajo de 250).
pub open spec fn alfa_presente(img: Imagen) -> bool {
    exists|i: int| 0 <= i < img.ancho * img.alto && #[trigger] img.canal(i, 3) < 250
}

/// El color de fondo: la mediana de cada canal en el borde.
pub open spec fn fondo_de(img: Imagen) -> Seq<u8> {
    let k = (borde(img.ancho as int, img.alto as int).len() / 2) as int;
    seq![
        kesimo_de(borde_canal(img, 0), k),
        kesimo_de(borde_canal(img, 1), k),
        kesimo_de(borde_canal(img, 2), k),
    ]
}

/// La distancia de cada píxel al color `f`, en 0..=255.
pub open spec fn distancias_de(img: Imagen, f: Seq<u8>) -> Seq<u8> {
    Seq::new((img.ancho * img.alto) as nat, |i: int| nivel(distancia_cuadrada(img, i, f)) as u8)
}

/// El umbral automático para las distancias `dist` con el umbral de Otsu
/// `otsu`: Otsu, sin pasar del ruido del borde (percentil 99) más 10.
pub open spec fn umbral_auto_de(dist: Seq<u8>, w: int, h: int, otsu: u8) -> u8 {
    let b = borde_valores(dist, w, h);
    let ruido = kesimo_de(b, (b.len() * 99 / 100) as int);
    let tope: int = if ruido + 10 > 255 {
        255
    } else {
        ruido + 10
    };
    (if (otsu as int) < tope {
        otsu as int
    } else {
        tope
    }) as u8
}

/// Figura antes de cerrar, rellenar e invertir: con transparencia, lo opaco
/// (alfa desde 128); sin ella, lo que se aleja del fondo más que el umbral
/// (el fijado en las opciones o, si no hay, el automático con `otsu`).
pub open spec fn figura_de(img: Imagen, umbral: Option<u8>, otsu: u8) -> Seq<bool> {
    let n = (img.ancho * img.alto) as nat;
    if alfa_presente(img) {
        Seq::new(n, |i: int| img.canal(i, 3) >= 128)
    } else {
        let dist = distancias_de(img, fondo_de(img));
        let t = match umbral {
            Some(t) => t,
            None => umbral_auto_de(dist, img.ancho as int, img.alto as int, otsu),
        };
        Seq::new(n, |i: int| dist[i] > t)
    }
}

/// La máscara entera: la figura, cerrada si se pide suavizar, sin huecos
/// salvo que se pida respetarlos, e invertida si se pide.
pub open spec fn mascara_de(img: Imagen, op: Opciones, otsu: u8) -> Seq<bool> {
    let (w, h) = (img.ancho as int, img.alto as int);
    let f = figura_de(img, op.umbral, otsu);
    let c = if op.suavizar > 0 {
        cierre(f, w, h, op.suavizar as int)
    } else {
        f
    };
    let l = if !op.huecos {
        sin_huecos(c, w, h)
    } else {
        c
    };
    if op.invertir {
        Seq::new(l.len(), |i: int| !l[i])
    } else {
        l
    }
}

/// ¿Hay algún píxel con transparencia?
pub fn tiene_alfa(img: &Imagen) -> (r: bool)
    requires
        img.bien_formada(),
    ensures
        r == alfa_presente(*img),
{
    let largo = img.rgba.len();
    let n = largo / 4;
    let mut i: usize = 0;
    while i < n
        invariant
            i <= n,
            n == img.ancho * img.alto,
            img.bien_formada(),
            largo == img.rgba@.len(),
            forall|j: int| 0 <= j < i ==> img.canal(j, 3) >= 250,
        decreases n - i,
    {
        if img.rgba[4 * i + 3] < 250 {
            assert(img.canal(i as int, 3) < 250);
            return true;
        }
        i = i + 1;
    }
    false
}

fn opacos(img: &Imagen) -> (r: Vec<bool>)
    requires
        img.bien_formada(),
    ensures
        r@.len() == img.ancho * img.alto,
        forall|i: int| 0 <= i < r@.len() ==> r@[i] == (img.canal(i, 3) >= 128),
{
    let largo = img.rgba.len();
    let n = largo / 4;
    let mut r: Vec<bool> = Vec::new();
    let mut i: usize = 0;
    while i < n
        invariant
            i <= n,
            n == img.ancho * img.alto,
            img.bien_formada(),
            largo == img.rgba@.len(),
            r@.len() == i,
            forall|j: int| 0 <= j < i ==> r@[j] == (img.canal(j, 3) >= 128),
        decreases n - i,
    {
        r.push(img.rgba[4 * i + 3] >= 128);
        i = i + 1;
    }
    r
}

fn por_encima(dist: &Vec<u8>, t: u8) -> (r: Vec<bool>)
    ensures
        r@.len() == dist@.len(),
        forall|i: int| 0 <= i < r@.len() ==> r@[i] == (dist@[i] > t),
{
    let mut r: Vec<bool> = Vec::new();
    let mut i: usize = 0;
    while i < dist.len()
        invariant
            i <= dist@.len(),
            r@.len() == i,
            forall|j: int| 0 <= j < i ==> r@[j] == (dist@[j] > t),
        decreases dist.len() - i,
    {
        r.push(dist[i] > t);
        i = i + 1;
    }
    r
}

fn negar(datos: &mut Vec<bool>)
    ensures
        final(datos)@.len() == old(datos)@.len(),
        forall|i: int| 0 <= i < old(datos)@.len() ==> final(datos)@[i] == !old(datos)@[i],
{
    let mut i: usize = 0;
    while i < datos.len()
        invariant
            i <= datos@.len(),
            datos@.len() == old(datos)@.len(),
            forall|j: int| 0 <= j < i ==> datos@[j] == !old(datos)@[j],
            forall|j: int| i <= j < datos@.len() ==> datos@[j] == old(datos)@[j],
        decreases datos.len() - i,
    {
        let b = datos[i];
        datos.set(i, !b);
        i = i + 1;
    }
}

/// Separa figura de fondo. Con transparencia usa el alfa; si no, compara cada
/// píxel con el color de fondo estimado en los bordes (la luminancia sola no
/// sirve: un amarillo claro sobre blanco se perdería). `otsu` es el umbral de
/// Otsu de las distancias al fondo, que solo cuenta cuando no hay
/// transparencia ni umbral fijado.
pub fn mascara(img: &Imagen, op: &Opciones, otsu: u8) -> (m: Mascara)
    requires
        img.bien_formada(),
        1 <= img.ancho,
        1 <= img.alto,
        198 * (img.ancho + img.alto) <= usize::MAX,
    ensures
        m.ancho == img.ancho,
        m.alto == img.alto,
        m.bien_formada(),
        m.datos@ == mascara_de(*img, *op, otsu),
{
    let (w, h) = (img.ancho, img.alto);
    let ghost f = figura_de(*img, op.umbral, otsu);
    let mut datos = if tiene_alfa(img) {
        let d = opacos(img);
        assert(d@ =~= f);
        d
    } else {
        let fondo = color_fondo(img);
        let dist = distancias(img, fondo);
        proof {
            assert(fondo@ =~= fondo_de(*img));
            assert(dist@ =~= distancias_de(*img, fondo_de(*img)));
        }
        let t = match op.umbral {
            Some(t) => t,
            None => umbral_auto(&dist, w, h, otsu),
        };
        let d = por_encima(&dist, t);
        assert(d@ =~= f);
        d
    };
    let ghost c = if op.suavizar > 0 {
        cierre(f, w as int, h as int, op.suavizar as int)
    } else {
        f
    };
    if op.suavizar > 0 {
        cerrar(&mut datos, w, h, op.suavizar);
    }
    assert(datos@ == c);
    let ghost l = if !op.huecos {
        sin_huecos(c, w as int, h as int)
    } else {
        c
    };
    if !op.huecos {
        rellenar_huecos(&mut datos, w, h);
    }
    assert(datos@ == l);
    if op.invertir {
        negar(&mut datos);
        assert(datos@ =~= Seq::new(l.len(), |i: int| !l[i]));
    }
    Mascara { ancho: w, alto: h, datos }
}

/// Ley de invertir: con `invertir` la máscara es la contraria, píxel a
/// píxel, de la que sale sin invertir (se escribe alrededor de la figura).
pub proof fn ley_invertir(img: Imagen, op: Opciones, otsu: u8)
    ensures
        mascara_de(img, Opciones { invertir: true, ..op }, otsu).len() == mascara_de(
            img,
            Opciones { invertir: false, ..op },
            otsu,
        ).len(),
        forall|i: int|
            0 <= i < mascara_de(img, Opciones { invertir: false, ..op }, otsu).len() ==> #[trigger] mascara_de(
                img,
                Opciones { invertir: true, ..op },
                otsu,
            )[i] == !mascara_de(img, Opciones { invertir: false, ..op }, otsu)[i],
{
}

/// Ley de los huecos: sin invertir, la máscara que rellena los huecos es la
/// que los respeta con los huecos rellenos (lo que no llega al borde por el
/// fondo pasa a ser figura), así que nunca quita figura.
pub proof fn ley_huecos(img: Imagen, op: Opciones, otsu: u8)
    requires
        !op.invertir,
    ensures
        mascara_de(img, Opciones { huecos: false, ..op }, otsu) == sin_huecos(
            mascara_de(img, Opciones { huecos: true, ..op }, otsu),
            img.ancho as int,
            img.alto as int,
        ),
        forall|i: int|
            0 <= i < mascara_de(img, Opciones { huecos: true, ..op }, otsu).len() && mascara_de(
                img,
                Opciones { huecos: true, ..op },
                otsu,
            )[i] ==> #[trigger] mascara_de(img, Opciones { huecos: false, ..op }, otsu)[i],
{
    let c = mascara_de(img, Opciones { huecos: true, ..op }, otsu);
    assert forall|i: int| 0 <= i < c.len() && c[i] implies #[trigger] mascara_de(
        img,
        Opciones { huecos: false, ..op },
        otsu,
    )[i] by {
        ley_sin_huecos_conserva_figura(c, img.ancho as int, img.alto as int, i);
    }
}

} // verus!

