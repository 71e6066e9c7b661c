use caligrama::analisis::analizar;
use caligrama::composicion::{componer, rellenar};
use caligrama::texto::{caracteres, contar_letras, espacio, limpiar, Texto};
use caligrama::{Error, Espacios};

#[test]
fn texto_en_orden_y_con_tildes() {
    let rejilla = vec![vec![true; 4], vec![false, true, true, false]];
    assert_eq!(
        rellenar(&rejilla, "ñandú", false, Espacios::Normal).unwrap(),
        "ñand\n ú"
    );
}

#[test]
fn repetir_cicla_con_espacio() {
    let rejilla = vec![vec![true; 7]];
    assert_eq!(
        rellenar(&rejilla, "abc", true, Espacios::Normal).unwrap(),
        "abc abc"
    );
    assert_eq!(
        rellenar(&rejilla, "abc", false, Espacios::Normal).unwrap(),
        "abc"
    );
}

#[test]
fn colapsa_espacios_y_saltos() {
    let rejilla = vec![vec![true; 5]];
    assert_eq!(
        rellenar(&rejilla, "a\n\n  b", false, Espacios::Normal).unwrap(),
        "a b"
    );
}

#[test]
fn espacios_sin_quita_todos_y_pega_repeticiones() {
    let rejilla = vec![vec![true; 10]];
    let r = rellenar(&rejilla, "Git  hub\n", true, Espacios::Sin).unwrap();
    assert_eq!(r, "GithubGith");
}

#[test]
fn espacios_todos_conserva_cada_espacio() {
    let rejilla = vec![vec![true; 12]];
    let r = rellenar(&rejilla, "a  b\nc\n", true, Espacios::Todos).unwrap();
    // "a␣␣b␣c" y se repite sin separador añadido; el \n final no cuenta.
    assert_eq!(r, "a  b ca  b c");
    assert_eq!(contar_letras("a  b\nc\r\n", Espacios::Todos), 6);
    assert!(matches!(
        rellenar(&rejilla, " \n ", true, Espacios::Todos),
        Err(Error::TextoVacio)
    ));
}

#[test]
fn recorta_margenes() {
    let rejilla = vec![vec![false; 3], vec![false, true, false], vec![false; 3]];
    assert_eq!(
        rellenar(&rejilla, "z", false, Espacios::Normal).unwrap(),
        "z"
    );
}

#[test]
fn silueta_vacia_es_un_error() {
    let rejilla = vec![vec![false; 4], vec![false; 2]];
    assert!(matches!(
        rellenar(&rejilla, "hola", true, Espacios::Normal),
        Err(Error::SiluetaVacia)
    ));
    assert!(matches!(
        rellenar(&[], "hola", true, Espacios::Normal),
        Err(Error::SiluetaVacia)
    ));
}

#[test]
fn texto_en_blanco_es_un_error() {
    let rejilla = vec![vec![true; 4]];
    for modo in [Espacios::Normal, Espacios::Sin, Espacios::Todos] {
        assert!(matches!(
            rellenar(&rejilla, " \t\u{3000}\n", true, modo),
            Err(Error::TextoVacio)
        ));
        assert!(matches!(Texto::nuevo("", modo, false), Err(Error::TextoVacio)));
    }
}

#[test]
fn sin_repetir_rellena_con_espacios_que_se_recortan() {
    // Las celdas que sobran quedan en blanco y el final de línea se recorta.
    let rejilla = vec![vec![true; 3], vec![true; 3]];
    assert_eq!(
        rellenar(&rejilla, "ab", false, Espacios::Normal).unwrap(),
        "ab\n"
    );
}

#[test]
fn texto_cuenta_grafemas_y_ciclo() {
    // "e" + acento combinante es un solo grafema.
    let t = Texto::nuevo("ae\u{301}", Espacios::Normal, true).unwrap();
    assert_eq!(t.letras, 2);
    assert_eq!(t.ciclo(), 3);
    let t = Texto::nuevo("ae\u{301}", Espacios::Sin, true).unwrap();
    assert_eq!(t.ciclo(), 2);
    assert_eq!(contar_letras("a  b\nc", Espacios::Normal), 5);
    assert_eq!(contar_letras("a  b\nc", Espacios::Sin), 3);
}

#[test]
fn limpiar_como_split_whitespace() {
    for s in ["  hola\t mundo \n", "", "uno", " a  b  c ", "x\u{a0}y\u{2003}z"] {
        let cs = caracteres(s);
        let normal: String = limpiar(&cs, Espacios::Normal).into_iter().collect();
        assert_eq!(normal, s.split_whitespace().collect::<Vec<_>>().join(" "));
        let sin: String = limpiar(&cs, Espacios::Sin).into_iter().collect();
        assert_eq!(sin, s.split_whitespace().collect::<String>());
    }
    let cs = caracteres("a\r\nb\t\n\n");
    let todos: String = limpiar(&cs, Espacios::Todos).into_iter().collect();
    assert_eq!(todos, "a b ");
}

#[test]
fn espacio_es_char_is_whitespace() {
    for u in 0u32..=0x10ffff {
        if let Some(c) = char::from_u32(u) {
            assert_eq!(espacio(c), c.is_whitespace(), "U+{u:04X}");
        }
    }
}

#[test]
fn componer_alinea_fotogramas_y_respeta_desfases() {
    let t = Texto::nuevo("abc", Espacios::Normal, true).unwrap();
    let a = vec![vec![false, false, false], vec![false, true, true]];
    let b = vec![vec![false, true, false], vec![false, true, true]];
    let f = componer(&[a, b], &t, &[0, 1]).unwrap();
    // Mismas filas (la unión de las figuras) y mismo margen izquierdo.
    assert_eq!(f, vec!["\nab".to_string(), "b\nc".to_string()]);
}

#[test]
fn componer_ciclo_completo_repite_el_fotograma() {
    let t = Texto::nuevo("hola", Espacios::Normal, true).unwrap();
    let r = vec![vec![true; 6], vec![true, false, true, true]];
    let f = componer(&[r.clone(), r], &t, &[2, 2 + t.ciclo()]).unwrap();
    assert_eq!(f[0], f[1]);
    assert_eq!(f[0], "la hol\na  h");
}

#[test]
fn analizar_cuadra_con_la_plantilla() {
    let rejilla = vec![
        vec![false, false, false, false],
        vec![false, true, false, true],
        vec![false, true, true, true],
    ];
    let a = analizar(&rejilla, 4).unwrap();
    assert_eq!(a.ancho, 4);
    assert_eq!(a.filas, 2);
    assert_eq!(a.por_fila, vec![2, 3]);
    assert_eq!(a.letras, 5);
    assert_eq!(a.tramos, 3);
    assert_eq!(a.tramo_min, 1);
    assert_eq!(a.tramo_max, 3);
    assert_eq!(a.plantilla, "# #\n###");
    assert_eq!(a.palabras_aprox(), 0);
    // La plantilla es el dibujo con cada letra cambiada por '#'.
    let s = rellenar(&rejilla, &"x".repeat(a.letras), false, Espacios::Normal).unwrap();
    assert_eq!(s.replace('x', "#"), a.plantilla);
    assert!(matches!(analizar(&[vec![false]], 1), Err(Error::SiluetaVacia)));
}

#[test]
fn sin_repetir_el_texto_entero_aparece_en_orden() {
    // Un anillo con hueco: 5 + 2 + 2 + 5 celdas, sitio para las 13 letras.
    let rejilla = vec![
        vec![false, true, true, true, true, true],
        vec![false, true, false, false, false, true],
        vec![false, true, false, false, false, true],
        vec![false, true, true, true, true, true],
    ];
    let texto = "Podrá  secarse\n";
    let s = rellenar(&rejilla, texto, false, Espacios::Normal).unwrap();
    let sin: String = s.split_whitespace().collect();
    assert_eq!(sin, texto.split_whitespace().collect::<String>());
    assert_eq!(s, "Podrá\n    s\ne   c\narse");
}

#[test]
fn una_fila_mas_ancha_no_cambia_el_dibujo() {
    let t = "a  b\nc\n";
    for e in [Espacios::Normal, Espacios::Sin, Espacios::Todos] {
        let n = contar_letras(t, e);
        assert_eq!(Texto::nuevo(t, e, false).unwrap().letras, n);
        let justo = rellenar(&[vec![true; n]], t, false, e).unwrap();
        for k in 1..5 {
            assert_eq!(rellenar(&[vec![true; n + k]], t, false, e).unwrap(), justo);
        }
    }
}
