//! El SVG animado: un grupo por fotograma y, en cada línea, cada tramo de
//! palabra en su columna y con el color ANSI que traiga el fotograma. Las medidas (posiciones, tiempos, tamaños) llegan ya escritas
//! como texto: se calculan con la proporción de las celdas y el tamaño de
//! letra, en coma flotante, fuera de aquí.

use vstd::prelude::*;

use crate::animacion::{dos_cifras, escapado, escapar, hex, hex_de, partes, partir};
use crate::ansi::{celdas_linea, tramos, tramos_de, vista_color, vista_tramos};
use crate::texto::{cadena, caracteres};
use crate::Error;

verus! {

/// Lo que dice un SVG sin fotogramas.
pub const MAL_SIN_FOTOGRAMAS: &'static str = "no hay fotogramas";

/// Lo que dice un SVG sin colores.
pub const MAL_SIN_COLORES: &'static str = "hace falta al menos un color";

/// Lo que dicen unas medidas no positivas.
pub const MAL_MEDIDAS: &'static str = "intervalo, tamaño y aspecto deben ser > 0";

/// Las medidas del SVG, ya escritas.
pub struct NumerosSvg {
    /// Ancho y alto del lienzo.
    pub ancho: String,
    pub alto: String,
    /// Tamaño de letra.
    pub tamano: String,
    /// Duración de una vuelta, en segundos.
    pub duracion: String,
    /// Porcentaje de la vuelta que dura un fotograma.
    pub porcentaje: String,
    /// Posición de cada color en el degradado.
    pub posiciones: Vec<String>,
    /// Retraso de cada fotograma, en segundos.
    pub retrasos: Vec<String>,
    /// Posición horizontal de cada columna.
    pub xs: Vec<String>,
    /// Línea base de cada fila.
    pub ys: Vec<String>,
}

/// Unos textos por sus caracteres.
pub open spec fn vistas_textos(v: Seq<String>) -> Seq<Seq<char>> {
    v.map_values(|s: String| s@)
}

/// El relleno de un tramo con color propio.
pub open spec fn relleno(c: Option<Seq<u8>>) -> Seq<char> {
    match c {
        Some(v) => " fill=\""@ + hex_vista(v) + "\""@,
        None => seq![],
    }
}

/// El color como `#rrggbb`, por sus canales.
pub open spec fn hex_vista(v: Seq<u8>) -> Seq<char> {
    seq!['#'] + dos_cifras(v[0]) + dos_cifras(v[1]) + dos_cifras(v[2])
}

/// Los tramos `..k` de una línea, cada uno en su columna y con su color
/// si lo trae.
pub open spec fn tspans(ps: Seq<(int, Seq<char>, Option<Seq<u8>>)>, xs: Seq<Seq<char>>, k: int) -> Seq<char>
    decreases k,
{
    if k <= 0 {
        seq![]
    } else {
        tspans(ps, xs, k - 1) + "<tspan x=\""@ + xs[ps[k - 1].0] + "\""@ + relleno(ps[k - 1].2) + ">"@
            + escapado(ps[k - 1].1) + "</tspan>"@
    }
}

/// La línea `j` de un fotograma: sus tramos en su fila, o nada si no tiene
/// ninguno.
pub open spec fn texto_linea(l: Seq<char>, j: int, xs: Seq<Seq<char>>, ys: Seq<Seq<char>>) -> Seq<
    char,
> {
    let ps = tramos_de(l);
    if ps.len() == 0 {
        seq![]
    } else {
        "<text y=\""@ + ys[j] + "\">"@ + tspans(ps, xs, ps.len() as int) + "</text>"@
    }
}

/// Las líneas `..k` de un fotograma.
pub open spec fn lineas_svg(ls: Seq<Seq<char>>, xs: Seq<Seq<char>>, ys: Seq<Seq<char>>, k: int) -> Seq<
    char,
>
    decreases k,
{
    if k <= 0 {
        seq![]
    } else {
        lineas_svg(ls, xs, ys, k - 1) + texto_linea(ls[k - 1], k - 1, xs, ys)
    }
}

/// El grupo del fotograma `i` de `n`: con varios, cada uno con su retraso
/// y todos salvo el primero ocultos al empezar.
pub open spec fn grupo(f: Seq<char>, i: int, n: int, nums: NumerosSvg) -> Seq<char> {
    (if n > 1 {
        "<g class=\"f\" style=\"animation-delay:"@ + nums.retrasos@[i]@ + "s\""@ + (if i > 0 {
            " opacity=\"0\""@
        } else {
            seq![]
        }) + ">"@
    } else {
        "<g>"@
    }) + lineas_svg(partes(f), vistas_textos(nums.xs@), vistas_textos(nums.ys@), partes(f).len() as int)
        + "</g>"@
}

/// Los grupos de los fotogramas `..k`.
pub open spec fn grupos(fs: Seq<Seq<char>>, nums: NumerosSvg, k: int) -> Seq<char>
    decreases k,
{
    if k <= 0 {
        seq![]
    } else {
        grupos(fs, nums, k - 1) + grupo(fs[k - 1], k - 1, fs.len() as int, nums)
    }
}

/// Las paradas `..k` del degradado.
pub open spec fn paradas(colores: Seq<[u8; 3]>, posiciones: Seq<Seq<char>>, k: int) -> Seq<char>
    decreases k,
{
    if k <= 0 {
        seq![]
    } else {
        paradas(colores, posiciones, k - 1) + "<stop offset=\""@ + posiciones[k - 1]
            + "\" stop-color=\""@ + hex_de(colores[k - 1]) + "\"/>"@
    }
}

/// El principio del documento, hasta el estilo del texto: el lienzo, el
/// degradado si hay más de un color y el relleno.
pub open spec fn cabecera_svg(colores: Seq<[u8; 3]>, nums: NumerosSvg) -> Seq<char> {
    "<svg xmlns=\"http://www.w3.org/2000/svg\" viewBox=\"0 0 "@ + nums.ancho@ + " "@ + nums.alto@
        + "\" width=\""@ + nums.ancho@ + "\" height=\""@ + nums.alto@
        + "\" role=\"img\" aria-label=\"caligrama\">"@ + (if colores.len() == 1 {
        seq![]
    } else {
        "<defs><linearGradient id=\"g\" x1=\"0\" y1=\"0\" x2=\"1\" y2=\"0\">"@ + paradas(
            colores,
            vistas_textos(nums.posiciones@),
            colores.len() as int,
        ) + "</linearGradient></defs>"@
    })
        + "<style>text{font-family:'DejaVu Sans Mono',Menlo,Consolas,'Liberation Mono',monospace;font-size:"@
        + nums.tamano@ + "px;font-weight:bold;fill:"@ + (if colores.len() == 1 {
        hex_de(colores[0])
    } else {
        "url(#g)"@
    }) + "}"@
}

/// El resto del estilo: la animación, si hay varios fotogramas, y el fondo.
pub open spec fn estilo_svg(n: int, fondo: Option<[u8; 3]>, nums: NumerosSvg) -> Seq<char> {
    (if n > 1 {
        ".f{opacity:0;animation:v "@ + nums.duracion@ + "s step-end infinite}@keyframes v{0%{opacity:1}"@
            + nums.porcentaje@ + "%{opacity:0}100%{opacity:0}}"@
    } else {
        seq![]
    }) + "</style>"@ + match fondo {
        Some(f) => "<rect width=\"100%\" height=\"100%\" rx=\"12\" fill=\""@ + hex_de(f) + "\"/>"@,
        None => seq![],
    }
}

/// El documento entero.
pub open spec fn svg_de(
    fs: Seq<Seq<char>>,
    colores: Seq<[u8; 3]>,
    fondo: Option<[u8; 3]>,
    nums: NumerosSvg,
) -> Seq<char> {
    cabecera_svg(colores, nums) + estilo_svg(fs.len() as int, fondo, nums) + grupos(
        fs,
        nums,
        fs.len() as int,
    ) + "</svg>"@
}

/// Hay medidas para todo: una posición por color, un retraso por
/// fotograma, una `x` por columna y una `y` por línea.
pub open spec fn medidas_completas(fs: Seq<Seq<char>>, colores: Seq<[u8; 3]>, nums: NumerosSvg) -> bool {
    &&& nums.posiciones@.len() >= colores.len()
    &&& nums.retrasos@.len() >= fs.len()
    &&& forall|i: int, j: int|
        0 <= i < fs.len() && 0 <= j < partes(fs[i]).len() ==> celdas_linea(
            #[trigger] partes(fs[i])[j],
        ).len() <= nums.xs@.len() && j < nums.ys@.len()
}

fn anadir(v: &mut Vec<char>, s: &str)
    ensures
        final(v)@ == old(v)@ + s@,
{
    let c = caracteres(s);
    let mut i: usize = 0;
    while i < c.len()
        invariant
            i <= c@.len(),
            v@ == old(v)@ + c@.take(i as int),
        decreases c.len() - i,
    {
        v.push(c[i]);
        i = i + 1;
        assert(v@ =~= old(v)@ + c@.take(i as int));
    }
    assert(c@.take(c@.len() as int) =~= c@);
}

fn anadir_linea(v: &mut Vec<char>, linea: &Vec<char>, j: usize, nums: &NumerosSvg)
    requires
        j < nums.ys@.len(),
        celdas_linea(linea@).len() <= nums.xs@.len(),
    ensures
        final(v)@ == old(v)@ + texto_linea(linea@, j as int, vistas_textos(nums.xs@), vistas_textos(nums.ys@)),
{
    let ghost xs = vistas_textos(nums.xs@);
    let ghost ys = vistas_textos(nums.ys@);
    let ps = tramos(linea);
    let ghost pd = tramos_de(linea@);
    if ps.len() == 0 {
        assert(pd.len() == 0);
        return;
    }
    anadir(v, "<text y=\"");
    anadir(v, nums.ys[j].as_str());
    anadir(v, "\">");
    let ghost antes = v@;
    let mut k: usize = 0;
    while k < ps.len()
        invariant
            k <= ps@.len(),
            vista_tramos(ps@) == pd,
            pd == tramos_de(linea@),
            xs == vistas_textos(nums.xs@),
            forall|i: int| 0 <= i < ps@.len() ==> (#[trigger] ps@[i]).0 < celdas_linea(linea@).len(),
            celdas_linea(linea@).len() <= nums.xs@.len(),
            v@ == antes + tspans(pd, xs, k as int),
        decreases ps.len() - k,
    {
        let (inicio, tramo, color) = &ps[k];
        assert(pd[k as int] == (*inicio as int, tramo@, vista_color(*color)));
        let ghost previo = v@;
        anadir(v, "<tspan x=\"");
        anadir(v, nums.xs[*inicio].as_str());
        anadir(v, "\"");
        match color {
            Some(c) => {
                anadir(v, " fill=\"");
                let h = hex(*c);
                anadir(v, h.as_str());
                anadir(v, "\"");
                assert(hex_de(*c) == hex_vista(c@));
            },
            None => {},
        }
        anadir(v, ">");
        let e = escapar(tramo.as_str());
        anadir(v, e.as_str());
        anadir(v, "</tspan>");
        assert(xs[*inicio as int] == nums.xs@[*inicio as int]@);
        assert(v@ =~= previo + "<tspan x=\""@ + xs[pd[k as int].0] + "\""@ + relleno(pd[k as int].2)
            + ">"@ + escapado(pd[k as int].1) + "</tspan>"@);
        k = k + 1;
    }
    anadir(v, "</text>");
    assert(ys[j as int] == nums.ys@[j as int]@);
    assert(v@ =~= old(v)@ + texto_linea(linea@, j as int, xs, ys));
}

fn anadir_grupo(v: &mut Vec<char>, f: &String, i: usize, n: usize, nums: &NumerosSvg)
    requires
        n > 1 ==> i < nums.retrasos@.len(),
        forall|j: int|
            0 <= j < partes(f@).len() ==> celdas_linea(#[trigger] partes(f@)[j]).len()
                <= nums.xs@.len() && j < nums.ys@.len(),
    ensures
        final(v)@ == old(v)@ + grupo(f@, i as int, n as int, *nums),
{
    let ghost xs = vistas_textos(nums.xs@);
    let ghost ys = vistas_textos(nums.ys@);
    if n > 1 {
        anadir(v, "<g class=\"f\" style=\"animation-delay:");
        anadir(v, nums.retrasos[i].as_str());
        anadir(v, "s\"");
        if i > 0 {
            anadir(v, " opacity=\"0\"");
        }
        anadir(v, ">");
    } else {
        anadir(v, "<g>");
    }
    let ghost medio = v@;
    let cs = caracteres(f.as_str());
    let ls = partir(&cs);
    let ghost ps = partes(f@);
    let mut j: usize = 0;
    while j < ls.len()
        invariant
            j <= ls@.len(),
            crate::texto::vista(ls@) == ps,
            ps == partes(f@),
            xs == vistas_textos(nums.xs@),
            ys == vistas_textos(nums.ys@),
            forall|j: int|
                0 <= j < ps.len() ==> celdas_linea(#[trigger] ps[j]).len() <= nums.xs@.len() && j
                    < nums.ys@.len(),
            v@ == medio + lineas_svg(ps, xs, ys, j as int),
        decreases ls.len() - j,
    {
        assert(ps[j as int] == ls@[j as int]@);
        anadir_linea(v, &ls[j], j, nums);
        j = j + 1;
    }
    anadir(v, "</g>");
    proof {
        if n > 1 {
            assert(nums.retrasos@[i as int]@ == nums.retrasos@[i as int]@);
        }
    }
    assert(v@ =~= old(v)@ + grupo(f@, i as int, n as int, *nums));
}

fn anadir_paradas(v: &mut Vec<char>, colores: &[[u8; 3]], nums: &NumerosSvg)
    requires
        nums.posiciones@.len() >= colores@.len(),
    ensures
        final(v)@ == old(v)@ + paradas(colores@, vistas_textos(nums.posiciones@), colores@.len() as int),
{
    let ghost pos = vistas_textos(nums.posiciones@);
    let mut k: usize = 0;
    while k < colores.len()
        invariant
            k <= colores@.len(),
            nums.posiciones@.len() >= colores@.len(),
            pos == vistas_textos(nums.posiciones@),
            v@ == old(v)@ + paradas(colores@, pos, k as int),
        decreases colores.len() - k,
    {
        let ghost antes = v@;
        anadir(v, "<stop offset=\"");
        anadir(v, nums.posiciones[k].as_str());
        anadir(v, "\" stop-color=\"");
        let h = hex(colores[k]);
        anadir(v, h.as_str());
        anadir(v, "\"/>");
        assert(pos[k as int] == nums.posiciones@[k as int]@);
        assert(v@ =~= antes + "<stop offset=\""@ + pos[k as int] + "\" stop-color=\""@ + hex_de(
            colores@[k as int],
        ) + "\"/>"@);
        k = k + 1;
    }
}

fn anadir_cabecera(v: &mut Vec<char>, colores: &[[u8; 3]], nums: &NumerosSvg)
    requires
        colores@.len() >= 1,
        nums.posiciones@.len() >= colores@.len(),
    ensures
        final(v)@ == old(v)@ + cabecera_svg(colores@, *nums),
{
    anadir(v, "<svg xmlns=\"http://www.w3.org/2000/svg\" viewBox=\"0 0 ");
    anadir(v, nums.ancho.as_str());
    anadir(v, " ");
    anadir(v, nums.alto.as_str());
    anadir(v, "\" width=\"");
    anadir(v, nums.ancho.as_str());
    anadir(v, "\" height=\"");
    anadir(v, nums.alto.as_str());
    anadir(v, "\" role=\"img\" aria-label=\"caligrama\">");
    let ghost tras_lienzo = v@;
    if colores.len() != 1 {
        anadir(v, "<defs><linearGradient id=\"g\" x1=\"0\" y1=\"0\" x2=\"1\" y2=\"0\">");
        anadir_paradas(v, colores, nums);
        anadir(v, "</linearGradient></defs>");
    }
    let ghost tras_degradado = v@;
    anadir(
        v,
        "<style>text{font-family:'DejaVu Sans Mono',Menlo,Consolas,'Liberation Mono',monospace;font-size:",
    );
    anadir(v, nums.tamano.as_str());
    anadir(v, "px;font-weight:bold;fill:");
    if colores.len() == 1 {
        let h = hex(colores[0]);
        anadir(v, h.as_str());
    } else {
        anadir(v, "url(#g)");
    }
    anadir(v, "}");
    assert(v@ =~= old(v)@ + cabecera_svg(colores@, *nums));
}

fn anadir_estilo(v: &mut Vec<char>, n: usize, fondo: Option<[u8; 3]>, nums: &NumerosSvg)
    ensures
        final(v)@ == old(v)@ + estilo_svg(n as int, fondo, *nums),
{
    if n > 1 {
        anadir(v, ".f{opacity:0;animation:v ");
        anadir(v, nums.duracion.as_str());
        anadir(v, "s step-end infinite}@keyframes v{0%{opacity:1}");
        anadir(v, nums.porcentaje.as_str());
        anadir(v, "%{opacity:0}100%{opacity:0}}");
    }
    anadir(v, "</style>");
    match fondo {
        Some(f) => {
            anadir(v, "<rect width=\"100%\" height=\"100%\" rx=\"12\" fill=\"");
            let h = hex(f);
            anadir(v, h.as_str());
            anadir(v, "\"/>");
        },
        None => {},
    }
    assert(v@ =~= old(v)@ + estilo_svg(n as int, fondo, *nums));
}

/// SVG con los fotogramas en bucle: el lienzo, el color (uno solo o un
/// degradado horizontal), la animación si hay varios fotogramas (cada uno
/// visible durante su parte de la vuelta), el fondo si lo hay y un grupo por
/// fotograma con cada tramo de palabra en su columna (y con su `fill` si el
/// fotograma trae color ANSI de 24 bits, que no pasa al SVG como texto), así
/// que no depende de que el visor respete los espacios. `medidas_validas`: intervalo, tamaño y
/// aspecto son positivos.
pub fn a_svg(
    fotogramas: &[String],
    colores: &[[u8; 3]],
    fondo: Option<[u8; 3]>,
    medidas_validas: bool,
    nums: &NumerosSvg,
) -> (r: Result<String, Error>)
    requires
        medidas_completas(vistas_textos(fotogramas@), colores@, *nums),
    ensures
        fotogramas@.len() == 0 ==> r == Err::<String, Error>(Error::OpcionInvalida(MAL_SIN_FOTOGRAMAS)),
        fotogramas@.len() > 0 && colores@.len() == 0 ==> r == Err::<String, Error>(
            Error::OpcionInvalida(MAL_SIN_COLORES),
        ),
        fotogramas@.len() > 0 && colores@.len() > 0 && !medidas_validas ==> r == Err::<
            String,
            Error,
        >(Error::OpcionInvalida(MAL_MEDIDAS)),
        fotogramas@.len() > 0 && colores@.len() > 0 && medidas_validas ==> (r matches Ok(s) && s@
            == svg_de(vistas_textos(fotogramas@), colores@, fondo, *nums)),
{
    if fotogramas.len() == 0 {
        return Err(Error::OpcionInvalida(MAL_SIN_FOTOGRAMAS));
    }
    if colores.len() == 0 {
        return Err(Error::OpcionInvalida(MAL_SIN_COLORES));
    }
    if !medidas_validas {
        return Err(Error::OpcionInvalida(MAL_MEDIDAS));
    }
    let ghost fs = vistas_textos(fotogramas@);
    let n = fotogramas.len();
    let mut v: Vec<char> = Vec::new();
    anadir_cabecera(&mut v, colores, nums);
    anadir_estilo(&mut v, n, fondo, nums);
    let ghost antes = v@;
    let mut i: usize = 0;
    while i < n
        invariant
            i <= n,
            n == fotogramas@.len(),
            fs == vistas_textos(fotogramas@),
            medidas_completas(fs, colores@, *nums),
            v@ == antes + grupos(fs, *nums, i as int),
        decreases n - i,
    {
        assert(fs[i as int] == fotogramas@[i as int]@);
        anadir_grupo(&mut v, &fotogramas[i], i, n, nums);
        i = i + 1;
    }
    anadir(&mut v, "</svg>");
    assert(v@ =~= svg_de(fs, colores@, fondo, *nums));
    Ok(cadena(v.as_slice()))
}

} // verus!
