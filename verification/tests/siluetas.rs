//! Caligramas de imágenes enteras: la máscara y la escritura son de la
//! biblioteca; el muestreo con la proporción de las celdas (coma flotante)
//! se hace aquí como lo hace el programa.

use caligrama::analisis::{analizar, Analisis};
use caligrama::dibujo::{animar as animar_con, dibujar as dibujar_con};
use caligrama::mascara::{color_fondo, distancias, mascara, tiene_alfa, Imagen, Mascara};
use caligrama::rejilla::{ancho_para, capacidad, rejilla_con};
use caligrama::texto::contar_letras;
use caligrama::{Ancho, Error, Espacios, Opciones};
use image::{Rgba, RgbaImage};

const BLANCO: Rgba<u8> = Rgba([255, 255, 255, 255]);
const AMARILLO: Rgba<u8> = Rgba([255, 212, 59, 255]);
const ASPECTO: f32 = 2.0;

fn imagen(img: RgbaImage) -> Imagen {
    let (w, h) = (img.width() as usize, img.height() as usize);
    Imagen::nueva(w, h, img.into_raw()).unwrap()
}

fn otsu(valores: &[u8]) -> u8 {
    let mut hist = [0u64; 256];
    for &v in valores {
        hist[v as usize] += 1;
    }
    let total = valores.len() as f64;
    let suma: f64 = hist
        .iter()
        .enumerate()
        .map(|(i, &c)| i as f64 * c as f64)
        .sum();
    let (mut peso_b, mut suma_b, mut mejor, mut t) = (0.0, 0.0, -1.0, 0u8);
    for (i, &c) in hist.iter().enumerate() {
        peso_b += c as f64;
        if peso_b == 0.0 {
            continue;
        }
        let peso_f = total - peso_b;
        if peso_f == 0.0 {
            break;
        }
        suma_b += i as f64 * c as f64;
        let media_b = suma_b / peso_b;
        let media_f = (suma - suma_b) / peso_f;
        let var = peso_b * peso_f * (media_b - media_f).powi(2);
        if var > mejor {
            mejor = var;
            t = i as u8;
        }
    }
    t
}

fn cortes(n: usize, paso: f32, max: usize) -> Vec<(usize, usize)> {
    (0..n)
        .map(|i| {
            let a = ((i as f32 * paso) as usize).min(max - 1);
            let b = (((i + 1) as f32 * paso) as usize).clamp(a + 1, max);
            (a, b)
        })
        .collect()
}

fn origenes(largo: usize, s: f32) -> Vec<Option<usize>> {
    let c = largo as f32 / 2.0;
    (0..largo)
        .map(|x| {
            let sx = c + (x as f32 + 0.5 - c) / s;
            if sx >= 0.0 && (sx as usize) < largo {
                Some(sx as usize)
            } else {
                None
            }
        })
        .collect()
}

fn pulso(t: f32) -> f32 {
    let lub = (-((t - 0.10) / 0.06).powi(2)).exp();
    let dub = 0.6 * (-((t - 0.32) / 0.07).powi(2)).exp();
    lub.max(dub)
}

struct Silueta {
    mascara: Mascara,
}

impl Silueta {
    fn nueva(img: &Imagen, op: &Opciones) -> Silueta {
        let umbral = if op.umbral.is_none() && !tiene_alfa(img) {
            otsu(&distancias(img, color_fondo(img)))
        } else {
            0
        };
        Silueta {
            mascara: mascara(img, op, umbral),
        }
    }

    fn rejilla_de(m: &Mascara, columnas: usize) -> Vec<Vec<bool>> {
        let celda_w = m.ancho as f32 / columnas as f32;
        let celda_h = celda_w * ASPECTO;
        let filas = ((m.alto as f32 / celda_h).round() as usize).max(1);
        rejilla_con(m, &cortes(filas, celda_h, m.alto), &cortes(columnas, celda_w, m.ancho))
    }

    fn rejilla(&self, columnas: usize) -> Vec<Vec<bool>> {
        Silueta::rejilla_de(&self.mascara, columnas)
    }

    fn rejilla_escalada(&self, columnas: usize, escala: f32) -> Vec<Vec<bool>> {
        if escala == 1.0 {
            return self.rejilla(columnas);
        }
        let m = &self.mascara;
        let escalada = m.escalar(&origenes(m.ancho, escala), &origenes(m.alto, escala));
        Silueta::rejilla_de(&escalada, columnas)
    }

    fn capacidad(&self, columnas: usize) -> usize {
        capacidad(&self.rejilla(columnas))
    }

    fn ancho_para(&self, letras: usize) -> Result<usize, Error> {
        ancho_para(letras, |n| self.capacidad(n))
    }

    fn analizar(&self, columnas: usize) -> Result<Analisis, Error> {
        analizar(&self.rejilla(columnas), columnas)
    }
}

fn dibujar(img: &Imagen, texto: &str, op: &Opciones) -> Result<String, Error> {
    let s = Silueta::nueva(img, op);
    dibujar_con(texto, op, true, |n| s.capacidad(n), |n| s.rejilla(n))
}

/// Fotogramas pedidos (`None`: los de una vuelta), paso y latido.
fn animar(
    img: &Imagen,
    texto: &str,
    op: &Opciones,
    pedidos: Option<usize>,
    paso: usize,
    latido: f32,
) -> Result<Vec<String>, Error> {
    let s = Silueta::nueva(img, op);
    animar_con(
        texto,
        op,
        pedidos,
        paso,
        (0.0..1.0).contains(&latido),
        latido > 0.0,
        true,
        |n| s.capacidad(n),
        |i, n, columnas| {
            let escala = 1.0 - latido * (1.0 - pulso(i as f32 / n as f32));
            s.rejilla_escalada(columnas, escala)
        },
    )
}

fn circulo(lado: u32, fondo: Rgba<u8>, tinta: Rgba<u8>) -> Imagen {
    let c = lado as f32 / 2.0;
    let r = lado as f32 * 0.4;
    imagen(RgbaImage::from_fn(lado, lado, |x, y| {
        let d = ((x as f32 - c).powi(2) + (y as f32 - c).powi(2)).sqrt();
        if d < r {
            tinta
        } else {
            fondo
        }
    }))
}

/// Anillo oscuro con interior del mismo color que el fondo.
fn anillo(lado: u32) -> Imagen {
    let c = lado as f32 / 2.0;
    imagen(RgbaImage::from_fn(lado, lado, |x, y| {
        let d = ((x as f32 - c).powi(2) + (y as f32 - c).powi(2)).sqrt();
        if (lado as f32 * 0.3..lado as f32 * 0.4).contains(&d) {
            Rgba([40, 40, 40, 255])
        } else {
            BLANCO
        }
    }))
}

fn disco() -> Imagen {
    imagen(RgbaImage::from_fn(200, 200, |x, y| {
        let d = ((x as f32 - 100.0).powi(2) + (y as f32 - 100.0).powi(2)).sqrt();
        if d < 80.0 {
            Rgba([0, 0, 0, 255])
        } else {
            Rgba([255, 255, 255, 255])
        }
    }))
}

fn fijo(n: usize) -> Opciones {
    Opciones {
        ancho: Ancho::Fijo(n),
        ..Default::default()
    }
}

#[test]
fn circulo_claro_sobre_blanco_se_detecta() {
    let s = dibujar(&circulo(200, BLANCO, AMARILLO), "ab", &fijo(20)).unwrap();
    let lineas: Vec<&str> = s.lines().collect();
    // Silueta redonda: la fila central es más ancha que la primera.
    let medio = lineas[lineas.len() / 2].trim().chars().count();
    assert!(medio > lineas[0].trim().chars().count());
    assert!(medio >= 14, "fila central demasiado estrecha: {medio}");
    // aspecto 2.0: ~la mitad de filas que columnas.
    assert!((7..=9).contains(&lineas.len()), "filas: {}", lineas.len());
}

#[test]
fn transparencia_manda_sobre_color() {
    let transp = Rgba([255, 255, 255, 0]);
    let tinta = Rgba([255, 255, 255, 255]); // mismo color que el fondo
    assert!(dibujar(&circulo(100, transp, tinta), "x", &fijo(20))
        .unwrap()
        .contains('x'));
}

#[test]
fn errores() {
    let img = imagen(RgbaImage::from_pixel(10, 10, BLANCO));
    assert!(matches!(
        dibujar(&img, "hola", &Opciones::default()),
        Err(Error::SiluetaVacia)
    ));
    let img = circulo(50, BLANCO, AMARILLO);
    assert!(matches!(
        dibujar(&img, "  \n", &Opciones::default()),
        Err(Error::TextoVacio)
    ));
    assert!(matches!(
        dibujar(&img, "a", &fijo(0)),
        Err(Error::OpcionInvalida(_))
    ));
}

#[test]
fn interior_del_color_del_fondo_es_figura() {
    let s = dibujar(&anillo(200), "o", &fijo(20)).unwrap();
    let lineas: Vec<&str> = s.lines().collect();
    // Solo los espacios simples del separador de repetición, sin hueco.
    assert!(!lineas[lineas.len() / 2].trim().contains("  "), "{s}");
}

#[test]
fn huecos_true_respeta_el_interior() {
    let op = Opciones {
        huecos: true,
        ..fijo(20)
    };
    let s = dibujar(&anillo(200), "o", &op).unwrap();
    let lineas: Vec<&str> = s.lines().collect();
    assert!(lineas[lineas.len() / 2].trim().contains("  "), "{s}");
}

#[test]
fn invertir_escribe_en_el_fondo() {
    let op = Opciones {
        invertir: true,
        ..fijo(20)
    };
    let s = dibujar(&circulo(200, BLANCO, AMARILLO), "o", &op).unwrap();
    let lineas: Vec<&str> = s.lines().collect();
    let medio = lineas[lineas.len() / 2];
    // En el centro hay un hueco rodeado de texto.
    assert!(medio.starts_with('o') && medio.trim_end().ends_with('o') && medio.contains("  "));
}

#[test]
fn ancho_auto_cabe_el_texto_una_vez() {
    let img = circulo(200, BLANCO, AMARILLO);
    let texto = "Podrá nublarse el sol eternamente; podrá secarse en un instante el mar";
    let op = Opciones {
        ancho: Ancho::Auto,
        repetir: false,
        ..Default::default()
    };
    let s = dibujar(&img, texto, &op).unwrap();
    // Todo el texto aparece, en orden, sin cortarse.
    let sin_espacios: String = s.split_whitespace().collect();
    assert_eq!(sin_espacios, texto.split_whitespace().collect::<String>());
    // Y es el menor ancho posible: uno menos ya no alcanza.
    let sil = Silueta::nueva(&img, &op);
    let n = sil
        .ancho_para(contar_letras(texto, Espacios::Normal))
        .unwrap();
    assert!(sil.capacidad(n) >= contar_letras(texto, Espacios::Normal));
    assert!(sil.capacidad(n - 1) < contar_letras(texto, Espacios::Normal));
}

#[test]
fn ancho_auto_texto_demasiado_largo() {
    let img = circulo(20, BLANCO, AMARILLO);
    let sil = Silueta::nueva(&img, &Opciones::default());
    let err = sil.ancho_para(usize::MAX).unwrap_err();
    assert!(matches!(err, Error::TextoLargo { .. }));
}

#[test]
fn analisis_cuadra_con_el_dibujo() {
    let img = anillo(200);
    let op = Opciones {
        huecos: true,
        ..Default::default()
    };
    let a = Silueta::nueva(&img, &op).analizar(30).unwrap();
    assert_eq!(a.letras, a.por_fila.iter().sum::<usize>());
    assert_eq!(a.filas, a.plantilla.lines().count());
    assert_eq!(a.letras, a.plantilla.matches('#').count());
    // El anillo con hueco tiene filas con dos tramos.
    assert!(a.tramos > a.filas);
    // La plantilla tiene la misma forma que el dibujo.
    let op = Opciones {
        ancho: Ancho::Fijo(30),
        huecos: true,
        repetir: false,
        ..Default::default()
    };
    let s = dibujar(&img, &"x".repeat(a.letras), &op).unwrap();
    assert_eq!(s.replace('x', "#"), a.plantilla);
}

#[test]
fn fluye_una_letra_por_fotograma_y_cierra_el_bucle() {
    let f = animar(&disco(), "abc", &fijo(30), None, 1, 0.0).unwrap();
    // "abc" + separador = ciclo de 4: 4 fotogramas sin costura.
    assert_eq!(f.len(), 4);
    let primera = |s: &str| s.trim_start().chars().next().unwrap();
    assert_eq!(primera(&f[0]), 'a');
    assert_eq!(primera(&f[1]), 'b');
    assert_eq!(primera(&f[2]), 'c');
    // El fotograma siguiente al último sería otra vez el primero.
    let o = Opciones {
        desfase: 4,
        ..fijo(30)
    };
    assert_eq!(dibujar(&disco(), "abc", &o).unwrap(), f[0]);
}

#[test]
fn paso_y_ciclo_usan_el_mcd() {
    // ciclo 6 ("abcde" + separador), paso 2 -> 3 fotogramas.
    assert_eq!(animar(&disco(), "abcde", &fijo(30), None, 2, 0.0).unwrap().len(), 3);
}

#[test]
fn late_y_todos_los_fotogramas_miden_igual() {
    let f = animar(&disco(), "x", &fijo(30), Some(20), 0, 0.4).unwrap();
    let filas: Vec<usize> = f.iter().map(|s| s.split('\n').count()).collect();
    assert!(filas.iter().all(|&n| n == filas[0]));
    let letras: Vec<usize> = f.iter().map(|s| s.matches('x').count()).collect();
    // Pico de latido (t≈0.1) más grande que el reposo (t≈0.7).
    assert!(letras[2] > letras[14], "{letras:?}");
}

#[test]
fn opciones_invalidas() {
    let mal = |pedidos: Option<usize>, latido: f32| {
        animar(&disco(), "x", &fijo(30), pedidos, 1, latido).is_err()
    };
    assert!(mal(None, 1.0));
    assert!(mal(Some(0), 0.0));
}
