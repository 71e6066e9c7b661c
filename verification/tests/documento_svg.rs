use caligrama::animacion::grafemas_por_linea;
use caligrama::ansi::columnas_por_linea;
use caligrama::svg::{a_svg, NumerosSvg, MAL_MEDIDAS, MAL_SIN_COLORES, MAL_SIN_FOTOGRAMAS};
use caligrama::Error;

const DEGRADADO: [[u8; 3]; 2] = [[0xff, 0x2d, 0x55], [0xb4, 0x4d, 0xff]];

/// Las medidas de un estilo: intervalo, tamaño de letra y aspecto.
fn medidas(
    fotogramas: &[String],
    colores: usize,
    fondo: bool,
    intervalo: f32,
    tamano: f32,
    aspecto: f32,
) -> NumerosSvg {
    let cols = fotogramas
        .iter()
        .flat_map(|f| columnas_por_linea(f))
        .max()
        .unwrap_or(0);
    let filas = fotogramas
        .iter()
        .map(|f| grafemas_por_linea(f).len())
        .max()
        .unwrap_or(0);
    let cw = tamano * 0.6;
    let lh = cw * aspecto;
    let pad = if fondo { tamano * 1.5 } else { 0.0 };
    let n = fotogramas.len();
    let tramos = colores.saturating_sub(1).max(1);
    NumerosSvg {
        ancho: format!("{}", (cols as f32 * cw + 2.0 * pad).ceil()),
        alto: format!("{}", (filas as f32 * lh + 2.0 * pad).ceil()),
        tamano: format!("{}", tamano),
        duracion: format!("{:.3}", n as f32 * intervalo),
        porcentaje: format!("{:.4}", 100.0 / n.max(1) as f32),
        posiciones: (0..colores)
            .map(|i| format!("{:.3}", i as f32 / tramos as f32))
            .collect(),
        retrasos: (0..n).map(|i| format!("{:.3}", i as f32 * intervalo)).collect(),
        xs: (0..cols).map(|c| format!("{:.1}", pad + c as f32 * cw)).collect(),
        ys: (0..filas)
            .map(|j| format!("{:.1}", pad + (j as f32 + 0.5) * lh + 0.35 * tamano))
            .collect(),
    }
}

fn por_defecto(fotogramas: &[String]) -> Result<String, Error> {
    let nums = medidas(fotogramas, DEGRADADO.len(), false, 0.08, 14.0, 2.0);
    a_svg(fotogramas, &DEGRADADO, None, true, &nums)
}

#[test]
fn svg_un_grupo_por_fotograma_y_escapa() {
    let f = vec!["<a> & b".to_string(), "  ñú".to_string()];
    let svg = por_defecto(&f).unwrap();
    assert_eq!(svg.matches("<g class=\"f\"").count(), 2);
    assert!(svg.contains("&lt;a&gt;") && svg.contains("&amp;"));
    // "ñú" empieza en la columna 2 aunque "ñ" ocupe 2 bytes.
    assert!(svg.contains(&format!(r#"<tspan x="{:.1}">ñú</tspan>"#, 2.0 * 14.0 * 0.6)));
    assert!(svg.contains("@keyframes"));
    let fijo = por_defecto(&f[..1]).unwrap();
    assert!(!fijo.contains("@keyframes"));
}

#[test]
fn svg_documento_completo_de_un_fotograma() {
    let f = vec!["ab c".to_string()];
    let nums = medidas(&f, 1, true, 0.08, 10.0, 2.0);
    let svg = a_svg(&f, &[[0, 0, 0]], Some([255, 255, 255]), true, &nums).unwrap();
    assert_eq!(
        svg,
        [
            r#"<svg xmlns="http://www.w3.org/2000/svg" viewBox="0 0 54 42" width="54" height="42" role="img" aria-label="caligrama">"#,
            "<style>text{font-family:'DejaVu Sans Mono',Menlo,Consolas,'Liberation Mono',monospace;font-size:10px;font-weight:bold;fill:#000000}",
            "</style>",
            r##"<rect width="100%" height="100%" rx="12" fill="#ffffff"/>"##,
            r#"<g><text y="24.5"><tspan x="15.0">ab</tspan><tspan x="33.0">c</tspan></text></g>"#,
            "</svg>",
        ]
        .join("")
    );
}

#[test]
fn svg_degradado_y_retrasos() {
    let f = vec!["x".to_string(), "y".to_string(), "z".to_string()];
    let svg = por_defecto(&f).unwrap();
    assert!(svg.contains(r##"<stop offset="0.000" stop-color="#ff2d55"/>"##));
    assert!(svg.contains(r##"<stop offset="1.000" stop-color="#b44dff"/>"##));
    assert!(svg.contains("fill:url(#g)"));
    assert!(svg.contains(r#"<g class="f" style="animation-delay:0.000s">"#));
    assert!(svg.contains(r#"<g class="f" style="animation-delay:0.160s" opacity="0">"#));
    assert!(svg.contains("animation:v 0.240s step-end infinite"));
    assert!(svg.contains("33.3333%{opacity:0}"));
}

#[test]
fn svg_lineas_en_blanco_no_dejan_texto() {
    let f = vec!["a\n   \nb".to_string()];
    let svg = por_defecto(&f).unwrap();
    assert_eq!(svg.matches("<text ").count(), 2);
}

#[test]
fn svg_errores() {
    let nada: Vec<String> = Vec::new();
    let nums = medidas(&nada, 2, false, 0.08, 14.0, 2.0);
    assert!(matches!(
        a_svg(&nada, &DEGRADADO, None, true, &nums),
        Err(Error::OpcionInvalida(m)) if m == MAL_SIN_FOTOGRAMAS
    ));
    let f = vec!["a".to_string()];
    let nums = medidas(&f, 0, false, 0.08, 14.0, 2.0);
    assert!(matches!(
        a_svg(&f, &[], None, true, &nums),
        Err(Error::OpcionInvalida(m)) if m == MAL_SIN_COLORES
    ));
    let nums = medidas(&f, 2, false, 0.0, 14.0, 2.0);
    assert!(matches!(
        a_svg(&f, &DEGRADADO, None, false, &nums),
        Err(Error::OpcionInvalida(m)) if m == MAL_MEDIDAS
    ));
}

#[test]
fn svg_respeta_el_color_ansi_de_cada_tramo() {
    let f = vec!["\x1b[38;2;1;2;3mab\x1b[0m c\x1b[1md".to_string()];
    let svg = por_defecto(&f).unwrap();
    assert!(!svg.contains('\x1b') && !svg.contains("[38;2;1;2;3m"));
    assert!(svg.contains(r##"<tspan x="0.0" fill="#010203">ab</tspan>"##), "{svg}");
    // Tras `ESC[0m` no hay color; `ESC[1m` (negrita) no lo cambia.
    assert!(svg.contains(r#"<tspan x="25.2">cd</tspan>"#), "{svg}");
}

#[test]
fn svg_parte_una_palabra_donde_cambia_el_color() {
    let f = vec!["\x1b[38;2;255;0;0ma\x1b[38;2;0;0;255mb".to_string()];
    let svg = por_defecto(&f).unwrap();
    assert!(svg.contains(r##"<tspan x="0.0" fill="#ff0000">a</tspan><tspan x="8.4" fill="#0000ff">b</tspan>"##), "{svg}");
}
