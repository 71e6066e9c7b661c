//! Textos para las personas: el mensaje de cada error y el informe de una
//! silueta.

use vstd::prelude::*;

use crate::animacion::{
    bytes_utf8, cifra, largo_utf8, mayor, partes, partir, renglones, sin_retorno, subida,
};
use crate::analisis::Analisis;
use crate::dibujo::Informe;
use crate::texto::{cadena, caracteres, espacio, sin_espacio_final, vista};
use crate::{Error, ANCHO_AUTO_MAX};

verus! {

/// Un número en decimal, sin ceros a la izquierda.
pub open spec fn decimal_de(n: nat) -> Seq<char>
    decreases n,
{
    if n < 10 {
        seq![cifra(n as int)]
    } else {
        decimal_de(n / 10) + seq![cifra((n % 10) as int)]
    }
}

/// `k` espacios (ninguno si `k <= 0`).
pub open spec fn blancos(k: int) -> Seq<char> {
    Seq::new(if k > 0 {
        k as nat
    } else {
        0
    }, |i: int| ' ')
}

/// `s` alineado a la derecha en `w` caracteres (`{:>w}`).
pub open spec fn a_la_derecha(s: Seq<char>, w: int) -> Seq<char> {
    blancos(w - s.len()) + s
}

/// `s` alineado a la izquierda en `w` caracteres (`{:<w}`).
pub open spec fn a_la_izquierda(s: Seq<char>, w: int) -> Seq<char> {
    s + blancos(w - s.len())
}

fn cifra_decimal(n: usize) -> (c: char)
    requires
        n < 10,
    ensures
        c == cifra(n as int),
{
    match n {
        0 => '0',
        1 => '1',
        2 => '2',
        3 => '3',
        4 => '4',
        5 => '5',
        6 => '6',
        7 => '7',
        8 => '8',
        _ => '9',
    }
}

fn anadir_decimal(v: &mut Vec<char>, n: usize)
    ensures
        final(v)@ == old(v)@ + decimal_de(n as nat),
    decreases n,
{
    if n < 10 {
        v.push(cifra_decimal(n));
    } else {
        anadir_decimal(v, n / 10);
        v.push(cifra_decimal(n % 10));
    }
    assert(v@ =~= old(v)@ + decimal_de(n as nat));
}

fn anadir_texto(v: &mut Vec<char>, s: &str)
    ensures
        final(v)@ == old(v)@ + s@,
{
    let c = caracteres(s);
    anadir_vec(v, &c);
}

fn anadir_vec(v: &mut Vec<char>, c: &Vec<char>)
    ensures
        final(v)@ == old(v)@ + c@,
{
    let mut i: usize = 0;
    while i < c.len()
        invariant
            i <= c@.len(),
            v@ == old(v)@ + c@.take(i as int),
        decreases c.len() - i,
    {
        v.push(c[i]);
        i = i + 1;
        assert(v@ =~= old(v)@ + c@.take(i as int));
    }
    assert(c@.take(c@.len() as int) =~= c@);
}

fn anadir_blancos(v: &mut Vec<char>, k: usize)
    ensures
        final(v)@ == old(v)@ + blancos(k as int),
{
    let mut i: usize = 0;
    while i < k
        invariant
            i <= k,
            v@ == old(v)@ + blancos(i as int),
        decreases k - i,
    {
        v.push(' ');
        i = i + 1;
        assert(v@ =~= old(v)@ + blancos(i as int));
    }
}

fn anadir_derecha(v: &mut Vec<char>, c: &Vec<char>, w: usize)
    ensures
        final(v)@ == old(v)@ + a_la_derecha(c@, w as int),
{
    if c.len() < w {
        anadir_blancos(v, w - c.len());
    } else {
        assert(blancos(w - c@.len()) =~= Seq::<char>::empty());
    }
    anadir_vec(v, c);
    assert(v@ =~= old(v)@ + a_la_derecha(c@, w as int));
}

fn anadir_numero_derecha(v: &mut Vec<char>, n: usize, w: usize)
    ensures
        final(v)@ == old(v)@ + a_la_derecha(decimal_de(n as nat), w as int),
{
    let mut c: Vec<char> = Vec::new();
    anadir_decimal(&mut c, n);
    assert(c@ =~= decimal_de(n as nat));
    anadir_derecha(v, &c, w);
}

/// El mensaje de un error que no es de lectura de la imagen.
pub open spec fn mensaje_de(e: Error) -> Seq<char> {
    match e {
        Error::TextoVacio => "el texto está vacío"@,
        Error::SiluetaVacia => "no se encontró ninguna silueta en la imagen"@,
        Error::OpcionInvalida(m) => "opción inválida: "@ + m@,
        Error::TextoLargo { letras, maximo } => "el texto tiene "@ + decimal_de(letras as nat)
            + " letras y la silueta admite como mucho "@ + decimal_de(maximo as nat) + " (con "@
            + decimal_de(ANCHO_AUTO_MAX as nat) + " columnas)"@,
        Error::Imagen(_) => "no se pudo leer la imagen: "@,
    }
}

/// La explicación que da `image` de un error de lectura
/// (`Display` de `ImageError`). No se dice nada de su texto.
#[verifier::external_body]
fn explicacion_imagen(e: &image::ImageError) -> String {
    format!("{e}")
}

impl Error {
    /// El mensaje para las personas. El de un error de lectura de la imagen
    /// empieza por `mensaje_de` y sigue con la explicación de `image`.
    pub fn mensaje(&self) -> (s: String)
        ensures
            !(*self is Imagen) ==> s@ == mensaje_de(*self),
            *self is Imagen ==> exists|x: Seq<char>| s@ == mensaje_de(*self) + x,
    {
        let mut v: Vec<char> = Vec::new();
        match self {
            Error::TextoVacio => anadir_texto(&mut v, "el texto está vacío"),
            Error::SiluetaVacia => anadir_texto(&mut v, "no se encontró ninguna silueta en la imagen"),
            Error::OpcionInvalida(m) => {
                anadir_texto(&mut v, "opción inválida: ");
                anadir_texto(&mut v, m);
            },
            Error::TextoLargo { letras, maximo } => {
                anadir_texto(&mut v, "el texto tiene ");
                anadir_decimal(&mut v, *letras);
                anadir_texto(&mut v, " letras y la silueta admite como mucho ");
                anadir_decimal(&mut v, *maximo);
                anadir_texto(&mut v, " (con ");
                anadir_decimal(&mut v, ANCHO_AUTO_MAX);
                anadir_texto(&mut v, " columnas)");
            },
            Error::Imagen(e) => {
                anadir_texto(&mut v, "no se pudo leer la imagen: ");
                let ghost antes = v@;
                let x = explicacion_imagen(e);
                anadir_texto(&mut v, x.as_str());
                assert(v@ == mensaje_de(*self) + x@);
            },
        }
        cadena(v.as_slice())
    }
}

/// La línea de la plantilla `l` con las letras `n` de su fila, con la
/// plantilla alineada en `largo` caracteres.
pub open spec fn linea_plantilla_informe(l: Seq<char>, largo: int, n: usize) -> Seq<char> {
    "  "@ + a_la_izquierda(l, largo) + "  │ "@ + a_la_derecha(decimal_de(n as nat), 3) + seq!['\n']
}

/// Las líneas de la plantilla de `ls` (hasta la `k`) con las letras de
/// `por_fila`.
pub open spec fn lineas_plantilla_informe(
    ls: Seq<Seq<char>>,
    por_fila: Seq<usize>,
    largo: int,
    k: int,
) -> Seq<char>
    decreases k,
{
    if k <= 0 {
        seq![]
    } else {
        lineas_plantilla_informe(ls, por_fila, largo, k - 1) + linea_plantilla_informe(
            ls[k - 1],
            largo,
            por_fila[k - 1],
        )
    }
}

/// Una fila de la tabla de anchos.
pub open spec fn linea_tabla(f: (usize, usize, usize)) -> Seq<char> {
    "  "@ + a_la_derecha(decimal_de(f.0 as nat), 5) + "  "@ + a_la_derecha(
        decimal_de(f.1 as nat),
        5,
    ) + "  "@ + a_la_derecha(decimal_de(f.2 as nat), 6) + "  "@ + a_la_derecha(
        decimal_de((f.2 / 6) as nat),
        9,
    ) + seq!['\n']
}

/// Las filas `..k` de la tabla de anchos.
pub open spec fn lineas_tabla(t: Seq<(usize, usize, usize)>, k: int) -> Seq<char>
    decreases k,
{
    if k <= 0 {
        seq![]
    } else {
        lineas_tabla(t, k - 1) + linea_tabla(t[k - 1])
    }
}

/// En qué ancho cabe el texto, o por qué no cabe nunca.
pub open spec fn parte_ajuste(ajuste: Result<usize, Error>) -> Seq<char> {
    match ajuste {
        Ok(n) => "Cabe completo desde "@ + decimal_de(n as nat) + " columnas (-w auto). "@,
        Err(e) => mensaje_de(e) + ". "@,
    }
}

/// Como `parte_ajuste`, con la explicación `x` que da `image` tras el
/// mensaje de un error de lectura.
pub open spec fn parte_ajuste_con(ajuste: Result<usize, Error>, x: Seq<char>) -> Seq<char> {
    match ajuste {
        Err(Error::Imagen(e)) => mensaje_de(Error::Imagen(e)) + x + ". "@,
        _ => parte_ajuste(ajuste),
    }
}

/// Cuántas letras sobran o faltan al ancho analizado.
pub open spec fn parte_diferencia(ancho: usize, caben: usize, letras: usize) -> Seq<char> {
    if caben == letras {
        "A "@ + decimal_de(ancho as nat) + " columnas cabe exacto.\n"@
    } else if caben > letras {
        "A "@ + decimal_de(ancho as nat) + " columnas sobran "@ + decimal_de((caben - letras) as nat)
            + " letras.\n"@
    } else {
        "A "@ + decimal_de(ancho as nat) + " columnas faltan "@ + decimal_de((letras - caben) as nat)
            + " letras.\n"@
    }
}

/// Lo que se dice del texto: sus letras, en qué ancho cabe (o por qué no
/// cabe) y cuántas letras sobran o faltan al ancho analizado.
pub open spec fn parte_texto(letras: usize, ajuste: Result<usize, Error>, ancho: usize, caben: usize) -> Seq<
    char,
> {
    "\nTu texto: "@ + decimal_de(letras as nat) + " letras. "@ + parte_ajuste(ajuste)
        + parte_diferencia(ancho, caben, letras)
}

/// Como `parte_texto`, con la explicación `x` de un error de lectura.
pub open spec fn parte_texto_con(
    letras: usize,
    ajuste: Result<usize, Error>,
    ancho: usize,
    caben: usize,
    x: Seq<char>,
) -> Seq<char> {
    "\nTu texto: "@ + decimal_de(letras as nat) + " letras. "@ + parte_ajuste_con(ajuste, x)
        + parte_diferencia(ancho, caben, letras)
}

/// El texto del informe lleva un error de lectura de imagen (cuya
/// explicación no se conoce).
pub open spec fn con_error_de_imagen(inf: Informe) -> bool {
    match inf.texto {
        Some((_, Err(Error::Imagen(_)))) => true,
        _ => false,
    }
}

/// El principio del informe: medidas, letras y tramos.
pub open spec fn cabecera_de(a: Analisis) -> Seq<char> {
    "Silueta a "@ + decimal_de(a.ancho as nat) + " columnas × "@ + decimal_de(a.filas as nat)
        + " filas\n"@ + "Caben "@ + decimal_de(a.letras as nat)
        + " letras (los espacios cuentan) ≈ "@ + decimal_de((a.letras / 6) as nat) + " palabras\n"@
        + "Tramos: "@ + decimal_de(a.tramos as nat) + " (de "@ + decimal_de(a.tramo_min as nat)
        + " a "@ + decimal_de(a.tramo_max as nat)
        + " letras); cada hueco entre tramos puede partir una palabra\n"@
        + "\nPlantilla (letras por fila a la derecha):\n"@
}

/// La plantilla con las letras de cada fila a la derecha.
pub open spec fn plantilla_informe(a: Analisis) -> Seq<char> {
    let ls = renglones(a.plantilla@);
    let largo = mayor(ls.map_values(|l: Seq<char>| bytes_utf8(l)));
    let k = if ls.len() < a.por_fila@.len() {
        ls.len()
    } else {
        a.por_fila@.len()
    };
    lineas_plantilla_informe(ls, a.por_fila@, largo as int, k as int)
}

/// La tabla de otros anchos, con su título.
pub open spec fn tabla_informe(t: Seq<(usize, usize, usize)>) -> Seq<char> {
    "\nOtros anchos:\n  ancho  filas  letras  ≈palabras\n"@ + lineas_tabla(t, t.len() as int)
}

/// Lo que se dice del texto, si lo hay.
pub open spec fn texto_informe(texto: Option<(usize, Result<usize, Error>)>, a: Analisis) -> Seq<char> {
    match texto {
        Some((letras, ajuste)) => parte_texto(letras, ajuste, a.ancho, a.letras),
        None => seq![],
    }
}

/// El informe en texto, antes de quitar los espacios del final.
pub open spec fn informe_de(inf: Informe) -> Seq<char> {
    cabecera_de(inf.analisis) + plantilla_informe(inf.analisis) + tabla_informe(inf.tabla@)
        + texto_informe(inf.texto, inf.analisis)
}

/// El informe con la explicación `x` que da `image` del error de lectura
/// del texto, si lo hay.
pub open spec fn informe_con(inf: Informe, x: Seq<char>) -> Seq<char> {
    cabecera_de(inf.analisis) + plantilla_informe(inf.analisis) + tabla_informe(inf.tabla@)
        + match inf.texto {
        Some((letras, ajuste)) => parte_texto_con(letras, ajuste, inf.analisis.ancho, inf.analisis.letras, x),
        None => seq![],
    }
}

fn largo_utf8_de(c: char) -> (n: u128)
    ensures
        n == largo_utf8(c),
{
    let u = c as u32;
    if u < 0x80 {
        1
    } else if u < 0x800 {
        2
    } else if u < 0x10000 {
        3
    } else {
        4
    }
}

fn bytes_de(l: &Vec<char>) -> (n: u128)
    ensures
        n == bytes_utf8(l@),
{
    let mut n: u128 = 0;
    let mut i: usize = 0;
    while i < l.len()
        invariant
            i <= l@.len(),
            n == bytes_utf8(l@.take(i as int)),
            n <= 4 * i,
        decreases l.len() - i,
    {
        assert(l@.take(i + 1).drop_last() =~= l@.take(i as int));
        n = n + largo_utf8_de(l[i]);
        i = i + 1;
    }
    assert(l@.take(l@.len() as int) =~= l@);
    n
}

/// Las líneas de `s` como las da `str::lines`.
fn renglones_exec(s: &Vec<char>) -> (r: Vec<Vec<char>>)
    ensures
        vista(r@) == renglones(s@),
{
    let ps = partir(s);
    let ghost p = partes(s@);
    proof {
        crate::animacion::lema_partes_no_vacio(s@);
    }
    let total = ps.len();
    let mut r: Vec<Vec<char>> = Vec::new();
    let mut j: usize = 0;
    while j + 1 < total
        invariant
            j + 1 <= total,
            total == ps@.len(),
            vista(ps@) == p,
            vista(r@) == p.drop_last().map_values(|l: Seq<char>| sin_retorno(l)).take(j as int),
        decreases total - j,
    {
        let l = &ps[j];
        let mut fin = l.len();
        if fin > 0 && l[fin - 1] == '\r' {
            fin = fin - 1;
        }
        let mut c: Vec<char> = Vec::new();
        let mut i: usize = 0;
        while i < fin
            invariant
                i <= fin <= l@.len(),
                c@ == l@.take(i as int),
            decreases fin - i,
        {
            c.push(l[i]);
            i = i + 1;
            assert(c@ =~= l@.take(i as int));
        }
        assert(p[j as int] == l@);
        assert(c@ =~= sin_retorno(l@));
        let ghost antes = vista(r@);
        r.push(c);
        assert(vista(r@) =~= antes.push(sin_retorno(p[j as int])));
        assert(p.drop_last().map_values(|l: Seq<char>| sin_retorno(l))[j as int] == sin_retorno(
            p[j as int],
        ));
        j = j + 1;
        assert(vista(r@) =~= p.drop_last().map_values(|l: Seq<char>| sin_retorno(l)).take(
            j as int,
        ));
    }
    assert(p.drop_last().map_values(|l: Seq<char>| sin_retorno(l)).take(j as int) =~= p.drop_last().map_values(
        |l: Seq<char>| sin_retorno(l),
    ));
    let ultima = &ps[total - 1];
    assert(p.last() == ultima@);
    if ultima.len() > 0 {
        let mut c: Vec<char> = Vec::new();
        let mut i: usize = 0;
        while i < ultima.len()
            invariant
                i <= ultima@.len(),
                c@ == ultima@.take(i as int),
            decreases ultima.len() - i,
        {
            c.push(ultima[i]);
            i = i + 1;
            assert(c@ =~= ultima@.take(i as int));
        }
        assert(c@ =~= ultima@);
        r.push(c);
        assert(vista(r@) =~= renglones(s@));
    }
    r
}

fn anadir_blancos_grande(v: &mut Vec<char>, k: u128)
    ensures
        final(v)@ == old(v)@ + blancos(k as int),
{
    let mut i: u128 = 0;
    while i < k
        invariant
            i <= k,
            v@ == old(v)@ + blancos(i as int),
        decreases k - i,
    {
        v.push(' ');
        i = i + 1;
        assert(v@ =~= old(v)@ + blancos(i as int));
    }
}

fn anadir_cabecera(v: &mut Vec<char>, a: &Analisis)
    ensures
        final(v)@ == old(v)@ + cabecera_de(*a),
{
    anadir_texto(v, "Silueta a ");
    anadir_decimal(v, a.ancho);
    anadir_texto(v, " columnas × ");
    anadir_decimal(v, a.filas);
    anadir_texto(v, " filas\n");
    anadir_texto(v, "Caben ");
    anadir_decimal(v, a.letras);
    anadir_texto(v, " letras (los espacios cuentan) ≈ ");
    anadir_decimal(v, a.letras / 6);
    anadir_texto(v, " palabras\n");
    anadir_texto(v, "Tramos: ");
    anadir_decimal(v, a.tramos);
    anadir_texto(v, " (de ");
    anadir_decimal(v, a.tramo_min);
    anadir_texto(v, " a ");
    anadir_decimal(v, a.tramo_max);
    anadir_texto(v, " letras); cada hueco entre tramos puede partir una palabra\n");
    anadir_texto(v, "\nPlantilla (letras por fila a la derecha):\n");
    assert(v@ =~= old(v)@ + cabecera_de(*a));
}

fn anadir_plantilla(v: &mut Vec<char>, a: &Analisis)
    ensures
        final(v)@ == old(v)@ + plantilla_informe(*a),
{
    let pc = caracteres(a.plantilla.as_str());
    let ls = renglones_exec(&pc);
    let ghost lv = vista(ls@);
    let ghost bytes = lv.map_values(|l: Seq<char>| bytes_utf8(l));
    let mut largo: u128 = 0;
    let mut j: usize = 0;
    while j < ls.len()
        invariant
            j <= ls@.len(),
            lv == vista(ls@),
            bytes == lv.map_values(|l: Seq<char>| bytes_utf8(l)),
            largo == mayor(bytes.take(j as int)),
        decreases ls.len() - j,
    {
        assert(bytes.take(j + 1).drop_last() =~= bytes.take(j as int));
        assert(lv[j as int] == ls@[j as int]@);
        let b = bytes_de(&ls[j]);
        if b > largo {
            largo = b;
        }
        j = j + 1;
    }
    assert(bytes.take(ls@.len() as int) =~= bytes);
    let k = if ls.len() < a.por_fila.len() {
        ls.len()
    } else {
        a.por_fila.len()
    };
    let ghost inicio = v@;
    let mut j: usize = 0;
    while j < k
        invariant
            j <= k,
            k <= ls@.len(),
            k <= a.por_fila@.len(),
            lv == vista(ls@),
            v@ == inicio + lineas_plantilla_informe(lv, a.por_fila@, largo as int, j as int),
        decreases k - j,
    {
        let l = &ls[j];
        assert(lv[j as int] == l@);
        let ghost antes = v@;
        anadir_texto(v, "  ");
        anadir_vec(v, l);
        if (l.len() as u128) < largo {
            anadir_blancos_grande(v, largo - l.len() as u128);
        } else {
            assert(blancos(largo - l@.len()) =~= Seq::<char>::empty());
        }
        anadir_texto(v, "  │ ");
        anadir_numero_derecha(v, a.por_fila[j], 3);
        v.push('\n');
        assert(v@ =~= antes + linea_plantilla_informe(l@, largo as int, a.por_fila@[j as int]));
        j = j + 1;
    }
}

fn anadir_tabla(v: &mut Vec<char>, t: &Vec<(usize, usize, usize)>)
    ensures
        final(v)@ == old(v)@ + tabla_informe(t@),
{
    anadir_texto(v, "\nOtros anchos:\n  ancho  filas  letras  ≈palabras\n");
    let ghost antes_tabla = v@;
    let mut j: usize = 0;
    while j < t.len()
        invariant
            j <= t@.len(),
            v@ == antes_tabla + lineas_tabla(t@, j as int),
        decreases t.len() - j,
    {
        let (n, filas, letras) = t[j];
        let ghost antes = v@;
        anadir_texto(v, "  ");
        anadir_numero_derecha(v, n, 5);
        anadir_texto(v, "  ");
        anadir_numero_derecha(v, filas, 5);
        anadir_texto(v, "  ");
        anadir_numero_derecha(v, letras, 6);
        anadir_texto(v, "  ");
        anadir_numero_derecha(v, letras / 6, 9);
        v.push('\n');
        assert(v@ =~= antes + linea_tabla(t@[j as int]));
        j = j + 1;
    }
}

fn anadir_ajuste(v: &mut Vec<char>, ajuste: &Result<usize, Error>)
    ensures
        !(*ajuste matches Err(Error::Imagen(_))) ==> final(v)@ == old(v)@ + parte_ajuste(*ajuste),
        *ajuste matches Err(Error::Imagen(_)) ==> exists|x: Seq<char>|
            final(v)@ == old(v)@ + parte_ajuste_con(*ajuste, x),
{
    match ajuste {
        Ok(n) => {
            anadir_texto(v, "Cabe completo desde ");
            anadir_decimal(v, *n);
            anadir_texto(v, " columnas (-w auto). ");
            assert(v@ =~= old(v)@ + parte_ajuste(*ajuste));
        },
        Err(e) => {
            let m = e.mensaje();
            anadir_texto(v, m.as_str());
            anadir_texto(v, ". ");
            proof {
                if *e is Imagen {
                    let x = choose|x: Seq<char>| m@ == mensaje_de(*e) + x;
                    assert(v@ =~= old(v)@ + parte_ajuste_con(*ajuste, x));
                }
            }
            assert(!(*ajuste matches Err(Error::Imagen(_))) ==> v@ =~= old(v)@ + parte_ajuste(
                *ajuste,
            ));
        },
    }
}

fn anadir_diferencia(v: &mut Vec<char>, ancho: usize, caben: usize, letras: usize)
    ensures
        final(v)@ == old(v)@ + parte_diferencia(ancho, caben, letras),
{
    anadir_texto(v, "A ");
    anadir_decimal(v, ancho);
    if caben == letras {
        anadir_texto(v, " columnas cabe exacto.\n");
    } else if caben > letras {
        anadir_texto(v, " columnas sobran ");
        anadir_decimal(v, caben - letras);
        anadir_texto(v, " letras.\n");
    } else {
        anadir_texto(v, " columnas faltan ");
        anadir_decimal(v, letras - caben);
        anadir_texto(v, " letras.\n");
    }
    assert(v@ =~= old(v)@ + parte_diferencia(ancho, caben, letras));
}

fn anadir_parte_texto(v: &mut Vec<char>, letras: usize, ajuste: &Result<usize, Error>, a: &Analisis)
    ensures
        !(*ajuste matches Err(Error::Imagen(_))) ==> final(v)@ == old(v)@ + parte_texto(
            letras,
            *ajuste,
            a.ancho,
            a.letras,
        ),
        *ajuste matches Err(Error::Imagen(_)) ==> exists|x: Seq<char>|
            final(v)@ == old(v)@ + parte_texto_con(letras, *ajuste, a.ancho, a.letras, x),
{
    anadir_texto(v, "\nTu texto: ");
    anadir_decimal(v, letras);
    anadir_texto(v, " letras. ");
    let ghost medio = v@;
    anadir_ajuste(v, ajuste);
    let ghost tras = v@;
    anadir_diferencia(v, a.ancho, a.letras, letras);
    proof {
        if *ajuste matches Err(Error::Imagen(_)) {
            let x = choose|x: Seq<char>| tras == medio + parte_ajuste_con(*ajuste, x);
            assert(v@ =~= old(v)@ + parte_texto_con(letras, *ajuste, a.ancho, a.letras, x));
        }
    }
    assert(!(*ajuste matches Err(Error::Imagen(_))) ==> v@ =~= old(v)@ + parte_texto(
        letras,
        *ajuste,
        a.ancho,
        a.letras,
    ));
}

/// `v` sin los espacios Unicode del final.
fn sin_final(v: &Vec<char>) -> (s: String)
    ensures
        s@ == sin_espacio_final(v@),
{
    let ghost todo = v@;
    let mut fin = v.len();
    assert(todo.take(v@.len() as int) =~= todo);
    while fin > 0 && espacio(v[fin - 1])
        invariant
            fin <= v@.len(),
            v@ == todo,
            sin_espacio_final(todo) == sin_espacio_final(todo.take(fin as int)),
        decreases fin,
    {
        assert(todo.take(fin as int).drop_last() =~= todo.take(fin - 1));
        fin = fin - 1;
    }
    proof {
        if fin > 0 {
            assert(todo.take(fin as int).last() == todo[fin - 1]);
        }
    }
    let mut r: Vec<char> = Vec::new();
    let mut i: usize = 0;
    while i < fin
        invariant
            i <= fin <= v@.len(),
            r@ == v@.take(i as int),
        decreases fin - i,
    {
        r.push(v[i]);
        i = i + 1;
        assert(r@ =~= v@.take(i as int));
    }
    cadena(r.as_slice())
}

/// El informe de una silueta para leerlo en la terminal: medidas, letras y
/// tramos, la plantilla con las letras de cada fila, la tabla de otros
/// anchos y, si hay texto, en qué ancho cabe y cuántas letras sobran o
/// faltan.
pub fn formatear_informe(inf: &Informe) -> (s: String)
    ensures
        !con_error_de_imagen(*inf) ==> s@ == sin_espacio_final(informe_de(*inf)),
        con_error_de_imagen(*inf) ==> exists|x: Seq<char>| s@ == sin_espacio_final(informe_con(*inf, x)),
{
    let mut v: Vec<char> = Vec::new();
    anadir_cabecera(&mut v, &inf.analisis);
    anadir_plantilla(&mut v, &inf.analisis);
    anadir_tabla(&mut v, &inf.tabla);
    let ghost antes = v@;
    match &inf.texto {
        None => {},
        Some((letras, ajuste)) => {
            anadir_parte_texto(&mut v, *letras, ajuste, &inf.analisis);
        },
    }
    proof {
        if !con_error_de_imagen(*inf) {
            assert(v@ =~= informe_de(*inf));
        } else {
            let (letras, ajuste) = inf.texto->0;
            let x = choose|x: Seq<char>|
                v@ == antes + parte_texto_con(letras, ajuste, inf.analisis.ancho, inf.analisis.letras, x);
            assert(v@ =~= informe_con(*inf, x));
        }
    }
    sin_final(&v)
}

/// La orden ANSI que vuelve al principio del fotograma recién dibujado
/// (ver `subida`).
pub fn subir(filas: usize) -> (s: String)
    ensures
        s@ == subida(filas as nat),
{
    let mut v: Vec<char> = Vec::new();
    v.push('\r');
    if filas > 1 {
        v.push('\x1b');
        v.push('[');
        anadir_decimal(&mut v, filas - 1);
        v.push('A');
    }
    assert(v@ =~= subida(filas as nat));
    cadena(v.as_slice())
}

} // verus!
