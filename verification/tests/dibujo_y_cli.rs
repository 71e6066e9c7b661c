use caligrama::animacion::{filas_fotogramas, preparar_fotograma};
use caligrama::cli::{interpretar, Modo};
use caligrama::dibujo::{
    animar, comprobar_animacion, dibujar, informe, MAL_ANCHO_CERO, MAL_ASPECTO, MAL_AUTO_SIN_TEXTO,
    MAL_FOTOGRAMAS, MAL_LATIDO,
};
use caligrama::formato::{formatear_informe, subir};
use caligrama::lectura::{es_real_exec, leer_usize};
use caligrama::texto::caracteres;
use caligrama::{Ancho, Error, Espacios, Opciones};

/// Una rejilla cuadrada de `n` celdas por lado con un disco de figura.
fn disco(n: usize) -> Vec<Vec<bool>> {
    let c = n as i64 - 1;
    (0..n as i64)
        .map(|y| {
            (0..n as i64)
                .map(|x| (2 * x - c).pow(2) + (2 * y - c).pow(2) <= c * c)
                .collect()
        })
        .collect()
}

fn celdas(r: &[Vec<bool>]) -> usize {
    r.iter().flatten().filter(|&&b| b).count()
}

#[test]
fn dibujar_escribe_en_la_rejilla_del_ancho() {
    let op = Opciones {
        ancho: Ancho::Fijo(5),
        ..Default::default()
    };
    let s = dibujar("ab", &op, true, |n| celdas(&disco(n)), disco).unwrap();
    assert_eq!(s, "  a\n b a\nb ab\n ab\n  a");
    // Con desfase, el texto empieza más adelante.
    let op = Opciones {
        desfase: 1,
        ..op
    };
    let s = dibujar("ab", &op, true, |n| celdas(&disco(n)), disco).unwrap();
    assert_eq!(s, "  b\n  ab\n ab a\n b a\n  b");
}

#[test]
fn dibujar_errores_en_orden() {
    let sin_figura = |n: usize| vec![vec![false; n]; n];
    let op = Opciones::default();
    assert!(matches!(
        dibujar("hola", &op, true, |_n| 0, sin_figura),
        Err(Error::SiluetaVacia)
    ));
    assert!(matches!(
        dibujar("  \n", &op, true, |n| celdas(&disco(n)), disco),
        Err(Error::TextoVacio)
    ));
    let cero = Opciones {
        ancho: Ancho::Fijo(0),
        ..Default::default()
    };
    match dibujar("a", &cero, false, |n| celdas(&disco(n)), disco) {
        Err(Error::OpcionInvalida(m)) => assert_eq!(m, MAL_ANCHO_CERO),
        otro => panic!("{otro:?}"),
    }
    match dibujar("a", &op, false, |n| celdas(&disco(n)), disco) {
        Err(Error::OpcionInvalida(m)) => assert_eq!(m, MAL_ASPECTO),
        otro => panic!("{otro:?}"),
    }
}

#[test]
fn dibujar_ancho_auto_cabe_una_vez() {
    let texto = "Podrá nublarse el sol eternamente; podrá secarse en un instante el mar";
    let op = Opciones {
        ancho: Ancho::Auto,
        repetir: false,
        ..Default::default()
    };
    let s = dibujar(texto, &op, true, |n| celdas(&disco(n)), disco).unwrap();
    let sin_espacios: String = s.split_whitespace().collect();
    assert_eq!(sin_espacios, texto.split_whitespace().collect::<String>());
    let op = Opciones {
        ancho: Ancho::Auto,
        ..Default::default()
    };
    assert!(matches!(
        dibujar(&"x".repeat(20000), &op, true, |n| celdas(&disco(n.min(30))), disco),
        Err(Error::TextoLargo { .. })
    ));
}

#[test]
fn animar_fluye_y_cierra_el_bucle() {
    let op = Opciones {
        ancho: Ancho::Fijo(6),
        ..Default::default()
    };
    let f = animar(
        "abc",
        &op,
        None,
        1,
        true,
        false,
        true,
        |n| celdas(&disco(n)),
        |_i, _total, n| disco(n),
    )
    .unwrap();
    // "abc" + separador: ciclo de 4, una letra por fotograma.
    assert_eq!(f.len(), 4);
    let primera = |s: &str| s.trim_start().chars().next().unwrap();
    assert_eq!(primera(&f[0]), 'a');
    assert_eq!(primera(&f[1]), 'b');
    assert_eq!(primera(&f[2]), 'c');
    // El fotograma que seguiría al último es otra vez el primero.
    let o = Opciones { desfase: 4, ..op };
    assert_eq!(dibujar("abc", &o, true, |n| celdas(&disco(n)), disco).unwrap(), f[0]);
    // Todos con las mismas filas aunque la figura cambie.
    let g = animar(
        "x",
        &op,
        Some(5),
        0,
        true,
        true,
        true,
        |n| celdas(&disco(n)),
        |i, _total, n| disco(if i % 2 == 0 { n } else { n - 2 }),
    )
    .unwrap();
    assert_eq!(g.len(), 5);
    assert!(g.iter().all(|s| s.split('\n').count() == g[0].split('\n').count()));
}

#[test]
fn animar_opciones_invalidas() {
    let op = Opciones::default();
    let mal = |latido_valido: bool, pedidos: Option<usize>| {
        animar(
            "x",
            &op,
            pedidos,
            1,
            latido_valido,
            false,
            true,
            |n| celdas(&disco(n)),
            |_i, _t, n| disco(n),
        )
    };
    match mal(false, None) {
        Err(Error::OpcionInvalida(m)) => assert_eq!(m, MAL_LATIDO),
        otro => panic!("{otro:?}"),
    }
    match mal(true, Some(0)) {
        Err(Error::OpcionInvalida(m)) => assert_eq!(m, MAL_FOTOGRAMAS),
        otro => panic!("{otro:?}"),
    }
    assert!(comprobar_animacion(true, Some(3), &op, true).is_ok());
}

#[test]
fn informe_cuadra_con_el_analisis() {
    let op = Opciones {
        ancho: Ancho::Fijo(9),
        ..Default::default()
    };
    let inf = informe(Some("hola mundo"), &op, true, |n| celdas(&disco(n)), disco).unwrap();
    assert_eq!(inf.analisis.ancho, 9);
    assert_eq!(inf.analisis.letras, celdas(&disco(9)));
    assert_eq!(inf.tabla.len(), 7);
    let t30 = disco(30);
    let filas30 = t30.iter().filter(|f| f.contains(&true)).count();
    assert_eq!(inf.tabla[0], (30, filas30, celdas(&t30)));
    let (letras, ajuste) = inf.texto.as_ref().unwrap();
    assert_eq!(*letras, 10);
    let n = *ajuste.as_ref().unwrap();
    assert!(celdas(&disco(n)) >= 10 && celdas(&disco(n - 1)) < 10);
    let s = formatear_informe(&inf);
    assert!(s.starts_with("Silueta a 9 columnas × 9 filas\n"));
    assert!(s.contains("\nTu texto: 10 letras. Cabe completo desde "));
    assert!(s.ends_with(&format!("A 9 columnas sobran {} letras.", celdas(&disco(9)) - 10)));
    let auto = Opciones {
        ancho: Ancho::Auto,
        ..Default::default()
    };
    match informe(None, &auto, true, |n| celdas(&disco(n)), disco) {
        Err(Error::OpcionInvalida(m)) => assert_eq!(m, MAL_AUTO_SIN_TEXTO),
        otro => panic!("{:?}", otro.map(|i| i.analisis)),
    }
}

#[test]
fn formatear_informe_completo() {
    let rejilla = |_n: usize| vec![vec![false, true, true], vec![true, false, true]];
    let op = Opciones {
        ancho: Ancho::Fijo(3),
        ..Default::default()
    };
    let inf = informe(Some("abcdefgh"), &op, true, |_n| 4, rejilla).unwrap();
    let mut lineas = vec![
        "Silueta a 3 columnas × 2 filas",
        "Caben 4 letras (los espacios cuentan) ≈ 0 palabras",
        "Tramos: 3 (de 1 a 2 letras); cada hueco entre tramos puede partir una palabra",
        "",
        "Plantilla (letras por fila a la derecha):",
        "   ##  │   2",
        "  # #  │   2",
        "",
        "Otros anchos:",
        "  ancho  filas  letras  ≈palabras",
    ];
    let filas_tabla: Vec<String> = [30, 40, 50, 60, 80, 100, 120]
        .iter()
        .map(|n| format!("  {n:>5}      2       4          0"))
        .collect();
    lineas.extend(filas_tabla.iter().map(|s| s.as_str()));
    lineas.push("");
    lineas.push(
        "Tu texto: 8 letras. el texto tiene 8 letras y la silueta admite como mucho 4 (con 1000 columnas). A 3 columnas faltan 4 letras.",
    );
    let esperado = lineas.join("\n");
    assert_eq!(formatear_informe(&inf), esperado);
}

#[test]
fn mensajes_de_error() {
    assert_eq!(Error::TextoVacio.mensaje(), "el texto está vacío");
    assert_eq!(
        Error::SiluetaVacia.mensaje(),
        "no se encontró ninguna silueta en la imagen"
    );
    assert_eq!(
        Error::OpcionInvalida("ancho debe ser > 0").mensaje(),
        "opción inválida: ancho debe ser > 0"
    );
    assert_eq!(
        Error::TextoLargo {
            letras: 12,
            maximo: 7
        }
        .mensaje(),
        "el texto tiene 12 letras y la silueta admite como mucho 7 (con 1000 columnas)"
    );
    let e = image::load_from_memory(b"nada").unwrap_err();
    assert!(Error::Imagen(e)
        .mensaje()
        .starts_with("no se pudo leer la imagen: "));
}

fn args(v: &[&str]) -> Vec<String> {
    v.iter().map(|s| s.to_string()).collect()
}

#[test]
fn cli_lee_opciones() {
    let o = interpretar(&args(&[
        "animar", "img.png", "-t", "hola", "-w", "AUTO", "--aspecto", "1.5e0", "--umbral", "200",
        "--sin-repetir", "--espacios", "todos", "--invertir", "--con-huecos", "--suavizar", "3",
        "--desfase", "+7", "--paso", "2", "--latido", ".25", "--fotogramas", "9", "--intervalo",
        "inf", "--veces", "1",
    ]))
    .unwrap();
    assert_eq!(o.modo, Modo::Animar);
    assert_eq!(o.ruta.as_deref(), Some("img.png"));
    assert_eq!(o.texto.as_deref(), Some("hola"));
    assert_eq!(o.opciones.ancho, Ancho::Auto);
    assert_eq!(o.aspecto.as_deref(), Some("1.5e0"));
    assert_eq!(o.opciones.umbral, Some(200));
    assert!(!o.opciones.repetir && o.opciones.invertir && o.opciones.huecos);
    assert_eq!(o.opciones.espacios, Espacios::Todos);
    assert_eq!((o.opciones.suavizar, o.opciones.desfase), (3, 7));
    assert_eq!((o.paso, o.fotogramas, o.veces), (2, Some(9), Some(1)));
    assert_eq!(o.latido.as_deref(), Some(".25"));
    assert_eq!(o.intervalo.as_deref(), Some("inf"));
    let o = interpretar(&args(&["dibujo.png", "--svg", "s.svg", "--fondo", "#fff", "--colores", "#f00,#00f"])).unwrap();
    assert_eq!(o.modo, Modo::Dibujar);
    assert_eq!(o.fondo, Some([255, 255, 255]));
    assert_eq!(o.colores.as_deref(), Some("#f00,#00f"));
    assert_eq!(o.paso, 1);
}

#[test]
fn cli_errores() {
    let err = |v: &[&str]| interpretar(&args(v)).err().unwrap();
    assert_eq!(err(&["a.png", "--help", "--nada"]), "");
    assert_eq!(err(&["a.png", "-t"]), "falta el valor de -t");
    assert_eq!(err(&["a.png", "--nada"]), "opción desconocida: --nada");
    assert_eq!(err(&["a.png", "b.png"]), "argumento de más: b.png");
    assert_eq!(err(&["a.png", "--umbral", "256"]), "--umbral debe estar entre 0 y 255");
    assert_eq!(err(&["a.png", "--aspecto", "1,5"]), "--aspecto debe ser un número");
    assert_eq!(
        err(&["a.png", "-w", "ancho"]),
        "opción inválida: ancho debe ser un entero o \"auto\""
    );
    assert_eq!(
        err(&["a.png", "--espacios", "pocos"]),
        "opción inválida: espacios debe ser \"normal\", \"sin\" o \"todos\""
    );
    assert_eq!(
        err(&["a.png", "--fondo", "rojo"]),
        "opción inválida: los colores van en hexadecimal: #rgb o #rrggbb"
    );
    assert_eq!(err(&["analizar", "a.png", "--svg", "x"]), "--svg no se usa al analizar");
    assert_eq!(err(&["a.png", "--paso", "2"]), "--paso no se usa al dibujar");
    assert_eq!(
        err(&["analizar", "a.png", "--veces", "2", "--tamano", "3"]),
        "--tamano no se usa al analizar"
    );
    assert_eq!(err(&["a.png", "-t", "x", "-f", "y"]), "usa --texto o --archivo, no ambos");
    assert_eq!(err(&[]), "falta la ruta de la imagen");
    assert_eq!(
        err(&["a.png", "--fondo", "#aññb"]),
        "opción inválida: los colores van en hexadecimal: #rgb o #rrggbb"
    );
}

#[test]
fn numeros_como_los_lee_parse() {
    for s in ["1", "+1.5", "-.5", "5.", "1e10", "1E-3", "inf", "-Infinity", "NaN", "0.0e+0"] {
        assert!(es_real_exec(&caracteres(s)), "{s}");
        assert!(s.parse::<f64>().is_ok(), "{s}");
    }
    for s in ["", ".", "e5", "1e", "1.2.3", " 1", "1 ", "--1", "0x10", "in", "1_000"] {
        assert!(!es_real_exec(&caracteres(s)), "{s}");
        assert!(s.parse::<f64>().is_err(), "{s}");
    }
    assert_eq!(leer_usize(&caracteres("0042")), Some(42));
    assert_eq!(leer_usize(&caracteres("18446744073709551616")), None);
}

#[test]
fn reproduccion_en_la_terminal() {
    let f = vec!["ab".to_string(), "a\nb\nc".to_string()];
    assert_eq!(filas_fotogramas(&f), 3);
    assert_eq!(filas_fotogramas(&[]), 1);
    assert_eq!(preparar_fotograma("ab", 3, &[]), "ab\x1b[K\n\x1b[K\n\x1b[K");
    assert_eq!(
        preparar_fotograma("a", 1, &[[1, 2, 3]]),
        "\x1b[38;2;1;2;3ma\x1b[0m\x1b[K"
    );
    assert_eq!(subir(3), "\r\x1b[2A");
    assert_eq!(subir(1), "\r");
}

#[test]
fn informe_solo_depende_del_ancho_elegido() {
    // La figura desaparece a los anchos de la tabla menores que 100, pero
    // el informe se pide a 100 columnas: sale bien y la tabla las omite.
    let op = Opciones {
        ancho: Ancho::Fijo(100),
        ..Default::default()
    };
    let rejilla = |n: usize| vec![vec![n >= 100; 3]];
    let inf = informe(None, &op, true, |n| if n >= 100 { 3 } else { 0 }, rejilla).unwrap();
    assert_eq!(inf.analisis.ancho, 100);
    assert_eq!(inf.analisis.letras, 3);
    assert_eq!(inf.tabla, vec![(100, 1, 3), (120, 1, 3)]);
    let op = Opciones {
        ancho: Ancho::Fijo(30),
        ..Default::default()
    };
    assert!(matches!(
        informe(None, &op, true, |n| if n >= 100 { 3 } else { 0 }, rejilla),
        Err(Error::SiluetaVacia)
    ));
}

#[test]
fn formatear_informe_con_error_de_imagen() {
    let rejilla = |_n: usize| vec![vec![false, true, true], vec![true, false, true]];
    let op = Opciones {
        ancho: Ancho::Fijo(3),
        ..Default::default()
    };
    let mut inf = informe(Some("abcdefgh"), &op, true, |_n| 4, rejilla).unwrap();
    let fallo = image::ImageError::Limits(image::error::LimitError::from_kind(
        image::error::LimitErrorKind::InsufficientMemory,
    ));
    let explicacion = fallo.to_string();
    inf.texto = Some((8, Err(Error::Imagen(fallo))));
    let s = formatear_informe(&inf);
    let cola = format!(
        "\nTu texto: 8 letras. no se pudo leer la imagen: {explicacion}. A 3 columnas faltan 4 letras."
    );
    assert!(s.ends_with(&cola), "{s}");
    assert!(s.starts_with("Silueta a 3 columnas × 2 filas\n"));
}
