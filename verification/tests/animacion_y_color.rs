use caligrama::animacion::{
    ancho_degradado, color, colorear, desfases, escapar, fotogramas,
    grafemas_por_linea, hex, mcd, FOTOGRAMAS_LATIDO, FOTOGRAMAS_MAX, MAL_COLOR,
};
use caligrama::ansi::{columnas_por_linea, quitar_ansi, tramos};
use caligrama::lectura::{MAL_ANCHO, MAL_ESPACIOS};
use caligrama::reproduccion::{al_empezar, al_terminar, siguiente, Accion, Reproduccion};
use caligrama::{Ancho, Error, Espacios};

#[test]
fn colores_hex() {
    assert_eq!(color("#fff").unwrap(), [255, 255, 255]);
    assert_eq!(color("#ff2d55").unwrap(), [255, 45, 85]);
    assert!(color("red").is_err());
    assert!(color("#12345").is_err());
    assert!(color("#gg0000").is_err());
}

#[test]
fn colores_con_espacios_y_mayusculas() {
    assert_eq!(color("  #A0b\n").unwrap(), [170, 0, 187]);
    assert_eq!(color("\u{3000}#0F0F0F").unwrap(), [15, 15, 15]);
    // Cada canal son dos cifras hexadecimales: un signo no lo es.
    assert!(matches!(color("#+f0000"), Err(Error::OpcionInvalida(m)) if m == MAL_COLOR));
    assert!(matches!(color("#+f+f+f"), Err(Error::OpcionInvalida(m)) if m == MAL_COLOR));
    match color("#12 456") {
        Err(Error::OpcionInvalida(m)) => assert_eq!(m, MAL_COLOR),
        otro => panic!("{otro:?}"),
    }
    assert!(color("").is_err());
    assert!(color("#").is_err());
    assert!(color("#ñññ").is_err());
    // Texto que no es ASCII: un error, sea cual sea su largo en bytes.
    assert!(matches!(color("#aññb"), Err(Error::OpcionInvalida(m)) if m == MAL_COLOR));
    assert!(matches!(color("#aéaaa"), Err(Error::OpcionInvalida(m)) if m == MAL_COLOR));
    assert!(color("#ññaa").is_err());
    assert_eq!(color(" #FF2D55 ").unwrap(), [255, 45, 85]);
}

#[test]
fn hex_y_escapar() {
    assert_eq!(hex([255, 45, 85]), "#ff2d55");
    assert_eq!(hex([0, 10, 171]), "#000aab");
    assert_eq!(escapar("<a> & b"), "&lt;a&gt; &amp; b");
    assert_eq!(escapar("ñú"), "ñú");
    for c in [[1, 2, 3], [255, 0, 128]] {
        assert_eq!(color(&hex(c)).unwrap(), c);
    }
}

#[test]
fn colorear_pone_degradado_y_resetea() {
    // Con dos colores y dos columnas, cada columna lleva uno de los colores.
    let s = colorear("ab\n c", &[[255, 0, 0], [0, 0, 255]]);
    assert!(s.starts_with("\x1b[38;2;255;0;0ma"));
    assert!(s.contains("\x1b[38;2;0;0;255m"));
    assert_eq!(s.matches("\x1b[0m").count(), 2);
    assert_eq!(colorear("ab", &[]), "ab");
}

#[test]
fn colorear_no_repite_el_color_ni_pinta_espacios() {
    let rojo = [255, 0, 0];
    let s = colorear("aa b\n\n   ", &[rojo, rojo, rojo, [0, 1, 2]]);
    assert_eq!(
        s,
        "\x1b[38;2;255;0;0maa \x1b[38;2;0;1;2mb\x1b[0m\n\n   "
    );
}

#[test]
fn anchos_del_degradado() {
    assert_eq!(ancho_degradado("ab\n c"), 2);
    assert_eq!(ancho_degradado(""), 2);
    assert_eq!(ancho_degradado("x"), 2);
    assert_eq!(ancho_degradado("abcde\r\nxy\n"), 5);
    assert_eq!(ancho_degradado("ñandú\n"), 5);
    assert_eq!(grafemas_por_linea("ab\n\nñú\r"), vec![2, 0, 3]);
    assert_eq!(grafemas_por_linea(""), vec![0]);
}

#[test]
fn tramos_con_su_columna_y_su_color() {
    let l = |s: &str| s.chars().collect::<Vec<char>>();
    let p = tramos(&l("  ñú <a> & b"));
    let esperado: Vec<(usize, String, Option<[u8; 3]>)> = vec![
        (2, "ñú".into(), None),
        (5, "<a>".into(), None),
        (9, "&".into(), None),
        (11, "b".into(), None),
    ];
    assert_eq!(p, esperado);
    assert!(tramos(&l("   ")).is_empty());
    assert_eq!(
        tramos(&l("\x1b[38;2;9;8;7mx y\x1b[0mz")),
        vec![(0, "x".to_string(), Some([9, 8, 7])), (2, "y".to_string(), Some([9, 8, 7])), (3, "z".to_string(), None)]
    );
}

#[test]
fn mcd_y_fotogramas() {
    assert_eq!(mcd(12, 18), 6);
    assert_eq!(mcd(7, 0), 7);
    assert_eq!(mcd(0, 5), 5);
    // "abc" + separador: ciclo 4, una letra por fotograma.
    assert_eq!(fotogramas(None, 1, false, 4), 4);
    // ciclo 6, paso 2: 3 fotogramas.
    assert_eq!(fotogramas(None, 2, false, 6), 3);
    assert_eq!(fotogramas(None, 0, true, 6), FOTOGRAMAS_LATIDO);
    assert_eq!(fotogramas(None, 0, false, 6), 1);
    assert_eq!(fotogramas(None, 1, false, 1000), FOTOGRAMAS_MAX);
    assert_eq!(fotogramas(Some(20), 0, true, 6), 20);
}

#[test]
fn bucle_sin_costura() {
    for ciclo in 1usize..40 {
        for paso in 1usize..40 {
            let n = fotogramas(None, paso, false, ciclo);
            assert_eq!(n * paso % ciclo, 0);
            assert!((1..n).all(|k| k * paso % ciclo != 0));
        }
    }
}

#[test]
fn desfases_avanzan_el_paso() {
    assert_eq!(desfases(3, 2, 4), vec![3, 5, 7, 9]);
    assert!(desfases(3, 2, 0).is_empty());
}

#[test]
fn leer_espacios_y_ancho() {
    assert_eq!("NORMAL".parse::<Espacios>().unwrap(), Espacios::Normal);
    assert_eq!("sin".parse::<Espacios>().unwrap(), Espacios::Sin);
    assert_eq!("Todos".parse::<Espacios>().unwrap(), Espacios::Todos);
    match "nada".parse::<Espacios>() {
        Err(Error::OpcionInvalida(m)) => assert_eq!(m, MAL_ESPACIOS),
        otro => panic!("{otro:?}"),
    }
    assert_eq!("AuTo".parse::<Ancho>().unwrap(), Ancho::Auto);
    assert_eq!("42".parse::<Ancho>().unwrap(), Ancho::Fijo(42));
    assert_eq!("+7".parse::<Ancho>().unwrap(), Ancho::Fijo(7));
    for malo in ["", "+", "-3", "4x", "99999999999999999999999"] {
        match malo.parse::<Ancho>() {
            Err(Error::OpcionInvalida(m)) => assert_eq!(m, MAL_ANCHO),
            otro => panic!("{malo}: {otro:?}"),
        }
    }
}

#[test]
fn el_degradado_reemplaza_el_color_que_traia() {
    let f = "\x1b[38;2;1;2;3ma\x1b[0m";
    assert_eq!(colorear(f, &[[255, 0, 0]]), "\x1b[38;2;255;0;0ma\x1b[0m");
    // Sin degradado, el fotograma sale tal cual, con su color.
    assert_eq!(colorear(f, &[]), f);
    assert_eq!(quitar_ansi("\x1b[38;2;1;2;3mab\x1b[0m\nc\x1b[m"), "ab\nc");
    assert_eq!(columnas_por_linea("\x1b[1mñú\x1b[0m\n"), vec![2, 0]);
    // Una secuencia a medias no es una secuencia.
    assert_eq!(quitar_ansi("\x1b[12"), "\x1b[12");
}

#[test]
fn reproducir_da_las_vueltas_pedidas() {
    let mut e = Reproduccion::nueva();
    let mut hechas = Vec::new();
    loop {
        let (sig, accion) = siguiente(&e, 2, Some(2));
        match accion {
            Accion::Terminar => break,
            Accion::Escribir { indice, subir_antes } => hechas.push((indice, subir_antes)),
            Accion::Pasar => unreachable!(),
        }
        e = sig;
    }
    assert_eq!(hechas, vec![(0, false), (1, true), (0, true), (1, true)]);
    assert_eq!(siguiente(&Reproduccion::nueva(), 3, Some(0)).1, Accion::Terminar);
    assert_eq!(siguiente(&Reproduccion::nueva(), 0, None).1, Accion::Pasar);
    assert_eq!(al_terminar(), "\x1b[0m\x1b[?25h\n");
    assert_eq!(al_empezar(), "\x1b[?25l");
}
