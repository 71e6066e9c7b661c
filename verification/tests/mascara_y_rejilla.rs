use std::io::Cursor;

use caligrama::mascara::{
    color_fondo, cuantizar, distancias, mascara, tiene_alfa, umbral_auto, Imagen, Mascara,
};
use caligrama::color_imagen::{colorear_con_imagen, colorear_por_filas, colores_celdas};
use caligrama::morfologia::{cerrar, rellenar_huecos};
use caligrama::rejilla::{ancho_para, capacidad, columnas, rejilla_con};
use caligrama::{Ancho, Error, Opciones, ANCHO_AUTO_MAX};
use image::{ImageFormat, Rgba, RgbaImage};

const BLANCO: Rgba<u8> = Rgba([255, 255, 255, 255]);

fn imagen(img: RgbaImage) -> Imagen {
    let (w, h) = (img.width() as usize, img.height() as usize);
    Imagen::nueva(w, h, img.into_raw()).unwrap()
}

#[test]
fn suavizar_une_trazos_punteados() {
    // Barra de puntos de 2px separados 2px, de x=12 a x=89.
    let img = imagen(RgbaImage::from_fn(100, 40, |x, y| {
        if (10..30).contains(&y) && (10..90).contains(&x) && x % 4 < 2 {
            Rgba([0, 0, 0, 255])
        } else {
            BLANCO
        }
    }));
    // Con solo dos tonos (distancias 0 y 255), el umbral de Otsu es 0.
    let otsu = 0;
    let punteada = mascara(&img, &Opciones::default(), otsu);
    let op = Opciones {
        suavizar: 2,
        ..Default::default()
    };
    let cerrada = mascara(&img, &op, otsu);
    let fila = |m: &Mascara| (12..90).filter(|&x| m.get(x, 20)).count();
    assert_eq!(fila(&punteada), 40);
    assert_eq!(fila(&cerrada), 78);
    // El cierre no engorda la figura: fuera de la barra sigue siendo fondo.
    assert!(!cerrada.get(5, 20) && !cerrada.get(50, 5));
}

/// Anillo oscuro de 9×9 con el interior del color del fondo.
fn anillo() -> Imagen {
    imagen(RgbaImage::from_fn(9, 9, |x, y| {
        let borde = (x == 2 || x == 6) && (2..=6).contains(&y) || (y == 2 || y == 6) && (2..=6).contains(&x);
        if borde {
            Rgba([40, 40, 40, 255])
        } else {
            BLANCO
        }
    }))
}

#[test]
fn huecos_se_rellenan_salvo_que_se_pidan() {
    let img = anillo();
    let op = Opciones {
        umbral: Some(20),
        ..Default::default()
    };
    let m = mascara(&img, &op, 0);
    assert!(m.get(4, 4) && m.get(2, 2) && !m.get(0, 0) && !m.get(8, 4));
    let op = Opciones {
        umbral: Some(20),
        huecos: true,
        ..Default::default()
    };
    let m = mascara(&img, &op, 0);
    assert!(!m.get(4, 4) && m.get(2, 2));
    let op = Opciones {
        umbral: Some(20),
        huecos: true,
        invertir: true,
        ..Default::default()
    };
    let m = mascara(&img, &op, 0);
    assert!(m.get(4, 4) && !m.get(2, 2) && m.get(0, 0));
}

#[test]
fn transparencia_manda_sobre_el_color() {
    // Todo blanco, pero solo el centro es opaco.
    let img = imagen(RgbaImage::from_fn(5, 5, |x, y| {
        if x == 2 && y == 2 {
            Rgba([255, 255, 255, 200])
        } else {
            Rgba([255, 255, 255, 0])
        }
    }));
    assert!(tiene_alfa(&img));
    let m = mascara(&img, &Opciones::default(), 0);
    assert_eq!(m.datos.iter().filter(|&&b| b).count(), 1);
    assert!(m.get(2, 2));
    assert!(!tiene_alfa(&anillo()));
}

#[test]
fn rellenar_huecos_solo_toca_el_fondo_encerrado() {
    // 5×4: un marco de figura con un hueco y un canal abierto al borde.
    let mut d = vec![
        false, true, true, true, false, //
        false, true, false, true, false, //
        false, true, true, true, false, //
        false, false, false, false, false,
    ];
    rellenar_huecos(&mut d, 5, 4);
    assert_eq!(d[7], true);
    assert_eq!(d.iter().filter(|&&b| b).count(), 9);
    let mut abierto = vec![true, false, true, true, false, true, true, true, true];
    rellenar_huecos(&mut abierto, 3, 3);
    assert_eq!(abierto, vec![true, false, true, true, false, true, true, true, true]);
    let mut vacio: Vec<bool> = vec![];
    rellenar_huecos(&mut vacio, 0, 0);
    assert!(vacio.is_empty());
}

#[test]
fn cerrar_une_y_no_engorda() {
    // Dos puntos separados por un hueco de un píxel se unen con radio 1.
    let mut d = vec![true, false, true, false, false];
    cerrar(&mut d, 5, 1, 1);
    assert_eq!(d, vec![true, true, true, false, false]);
    let mut v = vec![true, false, true];
    cerrar(&mut v, 1, 3, 1);
    assert_eq!(v, vec![true, true, true]);
}

#[test]
fn color_de_fondo_es_la_mediana_del_borde() {
    let img = imagen(RgbaImage::from_fn(4, 3, |x, y| {
        if x == 0 && y == 0 {
            Rgba([0, 0, 0, 255])
        } else if y == 1 && (x == 1 || x == 2) {
            Rgba([9, 9, 9, 255])
        } else {
            Rgba([200, 100, 50, 255])
        }
    }));
    assert_eq!(color_fondo(&img), [200, 100, 50]);
}

#[test]
fn cuantizar_coincide_con_la_raiz_en_coma_flotante() {
    let mut alcanzable = vec![false; 3 * 255 * 255 + 1];
    for a in 0u32..=255 {
        for b in a..=255 {
            for c in b..=255 {
                alcanzable[(a * a + b * b + c * c) as usize] = true;
            }
        }
    }
    for (q, &si) in alcanzable.iter().enumerate() {
        if si {
            let d = (q as f32).sqrt();
            let esperado = (d * 255.0 / 441.7).round().min(255.0) as u8;
            assert_eq!(cuantizar(q as u32), esperado, "q = {q}");
        }
    }
    assert_eq!(cuantizar(0), 0);
    assert_eq!(cuantizar(3 * 255 * 255), 255);
}

#[test]
fn distancias_y_umbral_automatico() {
    let img = imagen(RgbaImage::from_fn(3, 3, |x, y| {
        if x == 1 && y == 1 {
            Rgba([0, 0, 0, 255])
        } else {
            BLANCO
        }
    }));
    let d = distancias(&img, [255, 255, 255]);
    assert_eq!(d, vec![0, 0, 0, 0, 255, 0, 0, 0, 0]);
    // El ruido del borde es 0: el umbral no pasa de 10.
    assert_eq!(umbral_auto(&d, 3, 3, 128), 10);
    assert_eq!(umbral_auto(&d, 3, 3, 4), 4);
}

#[test]
fn rejilla_por_mayoria_y_capacidad() {
    // 4×2: la mitad izquierda llena, la derecha con un píxel de cuatro.
    let m = Mascara {
        ancho: 4,
        alto: 2,
        datos: vec![true, true, true, false, true, true, false, false],
    };
    let r = rejilla_con(&m, &[(0, 2)], &[(0, 2), (2, 4)]);
    assert_eq!(r, vec![vec![true, false]]);
    // Empate (dos de cuatro) cuenta como figura.
    let m = Mascara {
        ancho: 2,
        alto: 2,
        datos: vec![true, false, false, true],
    };
    assert_eq!(rejilla_con(&m, &[(0, 2)], &[(0, 2)]), vec![vec![true]]);
    assert_eq!(rejilla_con(&m, &[(0, 1), (1, 2)], &[(0, 1), (1, 2)]), vec![vec![true, false], vec![false, true]]);
    assert_eq!(capacidad(&[vec![true, false, true], vec![true]]), 3);
    assert_eq!(capacidad(&[]), 0);
}

#[test]
fn escalar_toma_el_pixel_de_origen() {
    let m = Mascara {
        ancho: 3,
        alto: 2,
        datos: vec![true, false, false, false, false, true],
    };
    let e = m.escalar(&[Some(2), Some(0), None], &[Some(1), Some(0)]);
    assert_eq!(e.datos, vec![true, false, false, false, true, false]);
}

#[test]
fn ancho_auto_es_el_menor_que_alcanza() {
    let cap = |n: usize| n * n / 10;
    let n = ancho_para(1000, cap).unwrap();
    assert!(cap(n) >= 1000 && cap(n - 1) < 1000);
    assert_eq!(n, 100);
    assert_eq!(ancho_para(1, |n: usize| n).unwrap(), 1);
    assert_eq!(columnas(Ancho::Fijo(7), 3, cap).unwrap(), 7);
    assert_eq!(columnas(Ancho::Auto, 1000, cap).unwrap(), 100);
}

#[test]
fn ancho_auto_errores() {
    assert!(matches!(ancho_para(0, |n: usize| n), Err(Error::TextoVacio)));
    assert!(matches!(ancho_para(5, |_n: usize| 0), Err(Error::SiluetaVacia)));
    match ancho_para(usize::MAX, |n: usize| n) {
        Err(Error::TextoLargo { letras, maximo }) => {
            assert_eq!(letras, usize::MAX);
            assert_eq!(maximo, ANCHO_AUTO_MAX);
        }
        otro => panic!("{otro:?}"),
    }
}

#[test]
fn ancho_auto_con_oscilaciones() {
    // La capacidad no crece siempre, pero el ancho hallado es el menor con
    // sitio: en ninguno de los anteriores cabe.
    let cap = |n: usize| if n % 7 == 0 { n / 2 } else { n };
    let n = ancho_para(300, cap).unwrap();
    assert!(cap(n) >= 300 && (1..n).all(|m| cap(m) < 300));
    assert_eq!(n, 300);
    // Un ancho pequeño con sitio entre otros sin él: se halla aunque al
    // lado no quepa.
    let cap = |n: usize| if n == 40 { 500 } else { n };
    assert_eq!(ancho_para(100, cap).unwrap(), 40);
}

#[test]
fn imagen_desde_bytes() {
    let img = RgbaImage::from_fn(3, 2, |x, y| Rgba([x as u8, y as u8, 7, 255]));
    let mut png = Vec::new();
    img.write_to(&mut Cursor::new(&mut png), ImageFormat::Png).unwrap();
    let leida = Imagen::desde_bytes(&png).unwrap();
    assert_eq!((leida.ancho, leida.alto), (3, 2));
    assert_eq!(leida.rgba, img.into_raw());
    assert!(matches!(Imagen::desde_bytes(b"no es una imagen"), Err(Error::Imagen(_))));
    assert!(Imagen::nueva(2, 2, vec![0; 15]).is_none());
}

#[test]
fn ancho_para_no_cabe_al_maximo_es_texto_largo() {
    // A 10 columnas cabrían 100 letras, pero al ancho máximo solo 5.
    let cap = |n: usize| if n == 10 { 100 } else { 5 };
    match ancho_para(50, cap) {
        Err(Error::TextoLargo { letras, maximo }) => assert_eq!((letras, maximo), (50, 5)),
        otro => panic!("{otro:?}"),
    }
}

#[test]
fn colores_de_la_imagen_por_celda() {
    // Dos columnas rojas y dos azules; la tercera fila no es figura.
    let img = imagen(RgbaImage::from_fn(4, 3, |x, y| {
        if y == 2 {
            Rgba([0, 255, 0, 255])
        } else if x < 2 {
            Rgba([255, 0, 0, 255])
        } else {
            Rgba([0, 0, 255, 255])
        }
    }));
    let m = Mascara {
        ancho: 4,
        alto: 3,
        datos: (0..12).map(|i| i < 8).collect(),
    };
    let ox: Vec<Option<usize>> = (0..4).map(Some).collect();
    let oy: Vec<Option<usize>> = (0..3).map(Some).collect();
    let c = colores_celdas(&img, &m, &ox, &oy, &[(0, 3)], &[(0, 2), (2, 4), (1, 3)]);
    // El verde de la fila de fondo no cuenta; la celda mixta da la media.
    assert_eq!(c, vec![vec![[255, 0, 0], [0, 0, 255], [128, 0, 128]]]);
    assert_eq!(
        colorear_por_filas("ab", &[vec![[255, 0, 0], [0, 0, 255]]]),
        "\x1b[38;2;255;0;0ma\x1b[38;2;0;0;255mb\x1b[0m"
    );
}

#[test]
fn colores_desde_el_recorte() {
    let colores = vec![vec![[9, 9, 9]; 3], vec![[1, 1, 1], [255, 0, 0], [0, 0, 255]]];
    // Recorte desde la fila 1 y la columna 1.
    assert_eq!(
        colorear_con_imagen("ab", &colores, 1, 1).unwrap(),
        "\x1b[38;2;255;0;0ma\x1b[38;2;0;0;255mb\x1b[0m"
    );
    // Más letras que celdas: no se puede pintar.
    assert_eq!(colorear_con_imagen("abc", &colores, 1, 1), None);
    assert_eq!(colorear_con_imagen("a\nb", &colores, 1, 1), None);
}
