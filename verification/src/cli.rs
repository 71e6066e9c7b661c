//! La línea de órdenes `caligrama`: qué se pide y con qué opciones.
//!
//! Aquí se leen los argumentos; leer el texto o la imagen, dibujar y mostrar
//! el resultado queda para quien la ejecuta.

use vstd::prelude::*;

use crate::animacion::{color, color_de, MAL_COLOR};
use crate::lectura::{
    entero_de, es_palabra, es_real, es_real_exec, leer_usize, minusculas, MAL_ANCHO,
    MAL_ESPACIOS,
};
use crate::texto::{cadena, caracteres};
use crate::{Ancho, Error, Espacios, Opciones};

verus! {

/// Qué hace la orden.
#[derive(Debug, Clone, Copy, PartialEq, Eq, Structural)]
pub enum Modo {
    Dibujar,
    Analizar,
    Animar,
}

/// Lo leído de la línea de órdenes, como valores matemáticos.
pub struct Leido {
    pub modo: Modo,
    pub opciones: Opciones,
    pub aspecto: Option<Seq<char>>,
    pub ruta: Option<Seq<char>>,
    pub texto: Option<Seq<char>>,
    pub archivo: Option<Seq<char>>,
    pub svg: Option<Seq<char>>,
    pub colores: Option<Seq<char>>,
    pub fondo: Option<Seq<u8>>,
    pub tamano: Option<Seq<char>>,
    pub paso: usize,
    pub latido: Option<Seq<char>>,
    pub fotogramas: Option<usize>,
    pub intervalo: Option<Seq<char>>,
    pub veces: Option<usize>,
    /// La última opción de salida (`--svg`, `--colores`, `--fondo`,
    /// `--tamano`) que apareció.
    pub de_salida: Option<Seq<char>>,
    /// La última opción de animación que apareció.
    pub de_animacion: Option<Seq<char>>,
}

/// Lo que pide la línea de órdenes. Los números reales (aspecto, tamaño,
/// latido, intervalo) van como texto ya comprobado: se pueden leer con
/// `str::parse`.
pub struct Orden {
    pub modo: Modo,
    pub opciones: Opciones,
    pub aspecto: Option<String>,
    pub ruta: Option<String>,
    pub texto: Option<String>,
    pub archivo: Option<String>,
    pub svg: Option<String>,
    pub colores: Option<String>,
    pub fondo: Option<[u8; 3]>,
    pub tamano: Option<String>,
    pub paso: usize,
    pub latido: Option<String>,
    pub fotogramas: Option<usize>,
    pub intervalo: Option<String>,
    pub veces: Option<usize>,
    pub de_salida: Option<String>,
    pub de_animacion: Option<String>,
}

/// Un texto opcional, por sus caracteres.
pub open spec fn vista_opcional(o: Option<String>) -> Option<Seq<char>> {
    match o {
        Some(s) => Some(s@),
        None => None,
    }
}

impl Orden {
    /// La orden como valores matemáticos.
    pub open spec fn leido(self) -> Leido {
        Leido {
            modo: self.modo,
            opciones: self.opciones,
            aspecto: vista_opcional(self.aspecto),
            ruta: vista_opcional(self.ruta),
            texto: vista_opcional(self.texto),
            archivo: vista_opcional(self.archivo),
            svg: vista_opcional(self.svg),
            colores: vista_opcional(self.colores),
            fondo: match self.fondo {
                Some(c) => Some(c@),
                None => None,
            },
            tamano: vista_opcional(self.tamano),
            paso: self.paso,
            latido: vista_opcional(self.latido),
            fotogramas: self.fotogramas,
            intervalo: vista_opcional(self.intervalo),
            veces: self.veces,
            de_salida: vista_opcional(self.de_salida),
            de_animacion: vista_opcional(self.de_animacion),
        }
    }
}

/// Lo que se lee antes de ningún argumento: las opciones por defecto.
pub open spec fn inicial(modo: Modo) -> Leido {
    Leido {
        modo,
        opciones: Opciones {
            ancho: Ancho::Fijo(60),
            repetir: true,
            espacios: Espacios::Normal,
            umbral: None,
            invertir: false,
            huecos: false,
            suavizar: 0,
            desfase: 0,
        },
        aspecto: None,
        ruta: None,
        texto: None,
        archivo: None,
        svg: None,
        colores: None,
        fondo: None,
        tamano: None,
        paso: 1,
        latido: None,
        fotogramas: None,
        intervalo: None,
        veces: None,
        de_salida: None,
        de_animacion: None,
    }
}

/// El texto de un error de opción inválida.
pub open spec fn invalida(m: &'static str) -> Seq<char> {
    "opción inválida: "@ + m@
}

/// Un entero `usize` escrito como texto.
pub open spec fn usize_de(s: Seq<char>) -> Option<usize> {
    match entero_de(s) {
        Some(n) => if n <= usize::MAX {
            Some(n as usize)
        } else {
            None
        },
        None => None,
    }
}

/// El ancho escrito `s`, como lo lee `Ancho::leer`.
pub open spec fn ancho_de(s: Seq<char>) -> Option<Ancho> {
    if minusculas(s) == seq!['a', 'u', 't', 'o'] {
        Some(Ancho::Auto)
    } else {
        match usize_de(s) {
            Some(n) => Some(Ancho::Fijo(n)),
            None => None,
        }
    }
}

/// El modo de espacios escrito `s`, como lo lee `Espacios::leer`.
pub open spec fn espacios_de(s: Seq<char>) -> Option<Espacios> {
    if minusculas(s) == seq!['n', 'o', 'r', 'm', 'a', 'l'] {
        Some(Espacios::Normal)
    } else if minusculas(s) == seq!['s', 'i', 'n'] {
        Some(Espacios::Sin)
    } else if minusculas(s) == seq!['t', 'o', 'd', 'o', 's'] {
        Some(Espacios::Todos)
    } else {
        None
    }
}

/// Las opciones que toman un valor detrás.
pub open spec fn toma_valor(a: Seq<char>) -> bool {
    ||| a == "-t"@
    ||| a == "--texto"@
    ||| a == "-f"@
    ||| a == "--archivo"@
    ||| a == "-w"@
    ||| a == "--ancho"@
    ||| a == "--aspecto"@
    ||| a == "--umbral"@
    ||| a == "--espacios"@
    ||| a == "--suavizar"@
    ||| a == "--desfase"@
    ||| a == "--svg"@
    ||| a == "--colores"@
    ||| a == "--fondo"@
    ||| a == "--tamano"@
    ||| a == "--paso"@
    ||| a == "--latido"@
    ||| a == "--fotogramas"@
    ||| a == "--intervalo"@
    ||| a == "--veces"@
}

/// Cuántos argumentos consume la opción `a` (ella y su valor, si lo toma).
pub open spec fn avance(a: Seq<char>) -> int {
    if toma_valor(a) {
        2
    } else {
        1
    }
}

/// Lo que hace el argumento `args[i]` (con su valor `args[i + 1]`, si lo
/// toma) sobre lo leído `e`: `Err(m)` si la orden es errónea (`m` vacío:
/// se pidió la ayuda); `Ok(e2)` con lo leído después.
pub open spec fn paso_cli(args: Seq<Seq<char>>, i: int, e: Leido) -> Result<Leido, Seq<char>> {
    let a = args[i];
    let op = e.opciones;
    if a == "-h"@ || a == "--help"@ {
        Err(Seq::empty())
    } else if !toma_valor(a) {
        if a == "--sin-repetir"@ {
            Ok(Leido { opciones: Opciones { repetir: false, ..op }, ..e })
        } else if a == "--invertir"@ {
            Ok(Leido { opciones: Opciones { invertir: true, ..op }, ..e })
        } else if a == "--con-huecos"@ {
            Ok(Leido { opciones: Opciones { huecos: true, ..op }, ..e })
        } else if a.len() > 1 && a[0] == '-' {
            Err("opción desconocida: "@ + a)
        } else if e.ruta is None {
            Ok(Leido { ruta: Some(a), ..e })
        } else {
            Err("argumento de más: "@ + a)
        }
    } else if i + 1 >= args.len() {
        Err("falta el valor de "@ + a)
    } else {
        let v = args[i + 1];
        if a == "-t"@ || a == "--texto"@ {
            Ok(Leido { texto: Some(v), ..e })
        } else if a == "-f"@ || a == "--archivo"@ {
            Ok(Leido { archivo: Some(v), ..e })
        } else if a == "-w"@ || a == "--ancho"@ {
            match ancho_de(v) {
                Some(w) => Ok(Leido { opciones: Opciones { ancho: w, ..op }, ..e }),
                None => Err(invalida(MAL_ANCHO)),
            }
        } else if a == "--aspecto"@ {
            if es_real(v) {
                Ok(Leido { aspecto: Some(v), ..e })
            } else {
                Err("--aspecto debe ser un número"@)
            }
        } else if a == "--umbral"@ {
            match entero_de(v) {
                Some(n) => if n <= 255 {
                    Ok(Leido { opciones: Opciones { umbral: Some(n as u8), ..op }, ..e })
                } else {
                    Err("--umbral debe estar entre 0 y 255"@)
                },
                None => Err("--umbral debe estar entre 0 y 255"@),
            }
        } else if a == "--espacios"@ {
            match espacios_de(v) {
                Some(m) => Ok(Leido { opciones: Opciones { espacios: m, ..op }, ..e }),
                None => Err(invalida(MAL_ESPACIOS)),
            }
        } else if a == "--suavizar"@ {
            match usize_de(v) {
                Some(n) => Ok(Leido { opciones: Opciones { suavizar: n, ..op }, ..e }),
                None => Err("--suavizar debe ser un entero >= 0"@),
            }
        } else if a == "--desfase"@ {
            match usize_de(v) {
                Some(n) => Ok(Leido { opciones: Opciones { desfase: n, ..op }, ..e }),
                None => Err("--desfase debe ser un entero >= 0"@),
            }
        } else if a == "--svg"@ {
            Ok(Leido { svg: Some(v), de_salida: Some(a), ..e })
        } else if a == "--colores"@ {
            Ok(Leido { colores: Some(v), de_salida: Some(a), ..e })
        } else if a == "--fondo"@ {
            match color_de(v) {
                None => Err(invalida(MAL_COLOR)),
                Some(c) => Ok(Leido { fondo: Some(c), de_salida: Some(a), ..e }),
            }
        } else if a == "--tamano"@ {
            if es_real(v) {
                Ok(Leido { tamano: Some(v), de_salida: Some(a), ..e })
            } else {
                Err("--tamano debe ser un número"@)
            }
        } else if a == "--paso"@ {
            match usize_de(v) {
                Some(n) => Ok(Leido { paso: n, de_animacion: Some(a), ..e }),
                None => Err("--paso debe ser un entero >= 0"@),
            }
        } else if a == "--latido"@ {
            if es_real(v) {
                Ok(Leido { latido: Some(v), de_animacion: Some(a), ..e })
            } else {
                Err("--latido debe ser un número entre 0 y 1"@)
            }
        } else if a == "--fotogramas"@ {
            match usize_de(v) {
                Some(n) => Ok(Leido { fotogramas: Some(n), de_animacion: Some(a), ..e }),
                None => Err("--fotogramas debe ser un entero > 0"@),
            }
        } else if a == "--intervalo"@ {
            if es_real(v) {
                Ok(Leido { intervalo: Some(v), de_animacion: Some(a), ..e })
            } else {
                Err("--intervalo debe ser un número"@)
            }
        } else {
            // `--veces`, la última que toma valor.
            match usize_de(v) {
                Some(n) => Ok(Leido { veces: Some(n), de_animacion: Some(a), ..e }),
                None => Err("--veces debe ser un entero >= 0"@),
            }
        }
    }
}

/// Leer los argumentos desde `args[i]` con lo leído `e`.
pub open spec fn leer_desde(args: Seq<Seq<char>>, i: int, e: Leido) -> Result<Leido, Seq<char>>
    decreases args.len() - i,
{
    if i >= args.len() || i < 0 {
        Ok(e)
    } else {
        match paso_cli(args, i, e) {
            Ok(e2) => leer_desde(args, i + avance(args[i]), e2),
            otro => otro,
        }
    }
}

/// El modo y los argumentos que quedan tras el primero si es `analizar` o
/// `animar`.
pub open spec fn modo_de(args: Seq<Seq<char>>) -> (Modo, Seq<Seq<char>>) {
    if args.len() > 0 && args[0] == "analizar"@ {
        (Modo::Analizar, args.drop_first())
    } else if args.len() > 0 && args[0] == "animar"@ {
        (Modo::Animar, args.drop_first())
    } else {
        (Modo::Dibujar, args)
    }
}

/// Lo que pide la línea de órdenes `args`: como `leer_desde`, y además
/// las opciones de salida no sirven al analizar, las de animación solo
/// sirven al animar, hace falta la ruta de la imagen y no se puede dar a la
/// vez `--texto` y `--archivo`.
pub open spec fn interpretacion(args: Seq<Seq<char>>) -> Result<Leido, Seq<char>> {
    let (modo, resto) = modo_de(args);
    match leer_desde(resto, 0, inicial(modo)) {
        Ok(e) => if modo == Modo::Analizar && e.de_salida is Some {
            Err(e.de_salida->0 + " no se usa al analizar"@)
        } else if modo != Modo::Animar && e.de_animacion is Some {
            Err(
                e.de_animacion->0 + if modo == Modo::Analizar {
                    " no se usa al analizar"@
                } else {
                    " no se usa al dibujar"@
                },
            )
        } else if e.ruta is None {
            Err("falta la ruta de la imagen"@)
        } else if e.texto is Some && e.archivo is Some {
            Err("usa --texto o --archivo, no ambos"@)
        } else {
            Ok(e)
        },
        otro => otro,
    }
}

/// Los argumentos por sus caracteres.
pub open spec fn vistas(args: Seq<String>) -> Seq<Seq<char>> {
    args.map_values(|s: String| s@)
}

fn es(a: &Vec<char>, lit: &str) -> (b: bool)
    ensures
        b == (a@ == lit@),
{
    let l = caracteres(lit);
    es_palabra(a, l.as_slice())
}

fn texto_de(lit: &str) -> (s: String)
    ensures
        s@ == lit@,
{
    let l = caracteres(lit);
    cadena(l.as_slice())
}

fn unir_textos(a: &str, b: &Vec<char>) -> (s: String)
    ensures
        s@ == a@ + b@,
{
    let mut v = caracteres(a);
    let mut i: usize = 0;
    let ghost antes = v@;
    while i < b.len()
        invariant
            i <= b@.len(),
            v@ == antes + b@.take(i as int),
        decreases b.len() - i,
    {
        v.push(b[i]);
        i = i + 1;
        assert(v@ =~= antes + b@.take(i as int));
    }
    assert(b@.take(b@.len() as int) =~= b@);
    cadena(v.as_slice())
}

fn seguido_de(a: &String, b: &str) -> (s: String)
    ensures
        s@ == a@ + b@,
{
    let mut v = caracteres(a.as_str());
    let w = caracteres(b);
    let ghost antes = v@;
    let mut i: usize = 0;
    while i < w.len()
        invariant
            i <= w@.len(),
            v@ == antes + w@.take(i as int),
        decreases w.len() - i,
    {
        v.push(w[i]);
        i = i + 1;
        assert(v@ =~= antes + w@.take(i as int));
    }
    assert(w@.take(w@.len() as int) =~= w@);
    cadena(v.as_slice())
}

fn invalida_exec(m: &'static str) -> (s: String)
    ensures
        s@ == invalida(m),
{
    let mc = caracteres(m);
    unir_textos("opción inválida: ", &mc)
}

fn leer_usize_texto(s: &String) -> (r: Option<usize>)
    ensures
        r == usize_de(s@),
{
    let cs = caracteres(s.as_str());
    leer_usize(&cs)
}

/// Un paso de la lectura, como `paso_cli`.
#[verifier::rlimit(60)]
fn paso(args: &[String], i: usize, o: &mut Orden) -> (r: Result<usize, String>)
    requires
        i < args@.len(),
    ensures
        match paso_cli(vistas(args@), i as int, old(o).leido()) {
            Err(m) => r matches Err(s) && s@ == m,
            Ok(e) => r matches Ok(j) && j == i + avance(vistas(args@)[i as int])
                && j <= args@.len() && final(o).leido() == e,
        },
{
    let ghost vs = vistas(args@);
    assert(vs[i as int] == args@[i as int]@);
    let a = caracteres(args[i].as_str());
    let toma = es(&a, "-t") || es(&a, "--texto") || es(&a, "-f") || es(&a, "--archivo") || es(
        &a,
        "-w",
    ) || es(&a, "--ancho") || es(&a, "--aspecto") || es(&a, "--umbral") || es(&a, "--espacios")
        || es(&a, "--suavizar") || es(&a, "--desfase") || es(&a, "--svg") || es(&a, "--colores")
        || es(&a, "--fondo") || es(&a, "--tamano") || es(&a, "--paso") || es(&a, "--latido") || es(
        &a,
        "--fotogramas",
    ) || es(&a, "--intervalo") || es(&a, "--veces");
    assert(toma == toma_valor(vs[i as int]));
    if es(&a, "-h") || es(&a, "--help") {
        return Err(String::new());
    }
    if toma && i + 1 >= args.len() {
        return Err(unir_textos("falta el valor de ", &a));
    }
    if !toma {
        if es(&a, "--sin-repetir") {
            o.opciones.repetir = false;
        } else if es(&a, "--invertir") {
            o.opciones.invertir = true;
        } else if es(&a, "--con-huecos") {
            o.opciones.huecos = true;
        } else if a.len() > 1 && a[0] == '-' {
            return Err(unir_textos("opción desconocida: ", &a));
        } else if o.ruta.is_none() {
            o.ruta = Some(args[i].clone());
        } else {
            return Err(unir_textos("argumento de más: ", &a));
        }
        return Ok(i + 1);
    }
    assert(vs[i + 1] == args@[i + 1]@);
    let v = args[i + 1].clone();
    let vc = caracteres(v.as_str());
    if es(&a, "-t") || es(&a, "--texto") {
        o.texto = Some(v);
    } else if es(&a, "-f") || es(&a, "--archivo") {
        o.archivo = Some(v);
    } else if es(&a, "-w") || es(&a, "--ancho") {
        match Ancho::leer(v.as_str()) {
            Ok(w) => {
                o.opciones.ancho = w;
            },
            Err(_) => {
                return Err(invalida_exec(MAL_ANCHO));
            },
        }
    } else if es(&a, "--aspecto") {
        if es_real_exec(&vc) {
            o.aspecto = Some(v);
        } else {
            return Err(texto_de("--aspecto debe ser un número"));
        }
    } else if es(&a, "--umbral") {
        match leer_usize(&vc) {
            Some(n) => {
                if n <= 255 {
                    o.opciones.umbral = Some(n as u8);
                } else {
                    return Err(texto_de("--umbral debe estar entre 0 y 255"));
                }
            },
            None => {
                proof {
                    if let Some(n) = entero_de(vc@) {
                        assert(n > 255);
                    }
                }
                return Err(texto_de("--umbral debe estar entre 0 y 255"));
            },
        }
    } else if es(&a, "--espacios") {
        match Espacios::leer(v.as_str()) {
            Ok(m) => {
                o.opciones.espacios = m;
            },
            Err(_) => {
                return Err(invalida_exec(MAL_ESPACIOS));
            },
        }
    } else if es(&a, "--suavizar") {
        match leer_usize_texto(&v) {
            Some(n) => {
                o.opciones.suavizar = n;
            },
            None => {
                return Err(texto_de("--suavizar debe ser un entero >= 0"));
            },
        }
    } else if es(&a, "--desfase") {
        match leer_usize_texto(&v) {
            Some(n) => {
                o.opciones.desfase = n;
            },
            None => {
                return Err(texto_de("--desfase debe ser un entero >= 0"));
            },
        }
    } else if es(&a, "--svg") {
        o.svg = Some(v);
        o.de_salida = Some(args[i].clone());
    } else if es(&a, "--colores") {
        o.colores = Some(v);
        o.de_salida = Some(args[i].clone());
    } else if es(&a, "--fondo") {
        match color(v.as_str()) {
            Err(_) => {
                return Err(invalida_exec(MAL_COLOR));
            },
            Ok(c) => {
                o.fondo = Some(c);
                o.de_salida = Some(args[i].clone());
            },
        }
    } else if es(&a, "--tamano") {
        if es_real_exec(&vc) {
            o.tamano = Some(v);
            o.de_salida = Some(args[i].clone());
        } else {
            return Err(texto_de("--tamano debe ser un número"));
        }
    } else if es(&a, "--paso") {
        match leer_usize_texto(&v) {
            Some(n) => {
                o.paso = n;
                o.de_animacion = Some(args[i].clone());
            },
            None => {
                return Err(texto_de("--paso debe ser un entero >= 0"));
            },
        }
    } else if es(&a, "--latido") {
        if es_real_exec(&vc) {
            o.latido = Some(v);
            o.de_animacion = Some(args[i].clone());
        } else {
            return Err(texto_de("--latido debe ser un número entre 0 y 1"));
        }
    } else if es(&a, "--fotogramas") {
        match leer_usize_texto(&v) {
            Some(n) => {
                o.fotogramas = Some(n);
                o.de_animacion = Some(args[i].clone());
            },
            None => {
                return Err(texto_de("--fotogramas debe ser un entero > 0"));
            },
        }
    } else if es(&a, "--intervalo") {
        if es_real_exec(&vc) {
            o.intervalo = Some(v);
            o.de_animacion = Some(args[i].clone());
        } else {
            return Err(texto_de("--intervalo debe ser un número"));
        }
    } else {
        match leer_usize_texto(&v) {
            Some(n) => {
                o.veces = Some(n);
                o.de_animacion = Some(args[i].clone());
            },
            None => {
                return Err(texto_de("--veces debe ser un entero >= 0"));
            },
        }
    }
    Ok(i + 2)
}

fn es_arg(a: &String, lit: &str) -> (b: bool)
    ensures
        b == (a@ == lit@),
{
    let c = caracteres(a.as_str());
    es(&c, lit)
}

/// Lee la línea de órdenes como `interpretacion`.
fn leer_cli(args: &[String]) -> (r: Result<Orden, String>)
    ensures
        match interpretacion(vistas(args@)) {
            Err(m) => r matches Err(s) && s@ == m,
            Ok(e) => r matches Ok(o) && o.leido() == e,
        },
{
    let ghost vs = vistas(args@);
    let analizar = args.len() > 0 && es_arg(&args[0], "analizar");
    let animar = !analizar && args.len() > 0 && es_arg(&args[0], "animar");
    let modo = if analizar {
        Modo::Analizar
    } else if animar {
        Modo::Animar
    } else {
        Modo::Dibujar
    };
    let desde: usize = if analizar || animar {
        1
    } else {
        0
    };
    let mut resto: Vec<String> = Vec::new();
    let mut k = desde;
    while k < args.len()
        invariant
            desde <= k <= args@.len(),
            resto@ == args@.subrange(desde as int, k as int),
        decreases args.len() - k,
    {
        resto.push(args[k].clone());
        k = k + 1;
        assert(resto@ =~= args@.subrange(desde as int, k as int));
    }
    let ghost rs = vistas(resto@);
    proof {
        assert(rs =~= vs.subrange(desde as int, args@.len() as int));
        if args@.len() > 0 {
            assert(vs[0] == args@[0]@);
        }
        assert(rs =~= modo_de(vs).1);
        assert(modo == modo_de(vs).0);
    }
    let mut o = Orden {
        modo,
        opciones: Opciones {
            ancho: Ancho::Fijo(60),
            repetir: true,
            espacios: Espacios::Normal,
            umbral: None,
            invertir: false,
            huecos: false,
            suavizar: 0,
            desfase: 0,
        },
        aspecto: None,
        ruta: None,
        texto: None,
        archivo: None,
        svg: None,
        colores: None,
        fondo: None,
        tamano: None,
        paso: 1,
        latido: None,
        fotogramas: None,
        intervalo: None,
        veces: None,
        de_salida: None,
        de_animacion: None,
    };
    assert(o.leido() == inicial(modo));
    let mut i: usize = 0;
    while i < resto.len()
        invariant
            i <= resto@.len(),
            rs == vistas(resto@),
            leer_desde(rs, 0, inicial(modo)) == leer_desde(rs, i as int, o.leido()),
            o.modo == modo,
            vs == vistas(args@),
            modo_de(vs).0 == modo,
            modo_de(vs).1 == rs,
        decreases resto.len() - i,
    {
        let ghost antes = o.leido();
        assert(leer_desde(rs, i as int, antes) == match paso_cli(rs, i as int, antes) {
            Ok(e2) => leer_desde(rs, i + avance(rs[i as int]), e2),
            otro => otro,
        });
        match paso(resto.as_slice(), i, &mut o) {
            Err(m) => {
                return Err(m);
            },
            Ok(j) => {
                i = j;
            },
        }
    }
    if modo == Modo::Analizar && o.de_salida.is_some() {
        let d = o.de_salida.unwrap();
        return Err(seguido_de(&d, " no se usa al analizar"));
    }
    if modo != Modo::Animar && o.de_animacion.is_some() {
        let d = o.de_animacion.unwrap();
        if modo == Modo::Analizar {
            return Err(seguido_de(&d, " no se usa al analizar"));
        } else {
            return Err(seguido_de(&d, " no se usa al dibujar"));
        }
    }
    if o.ruta.is_none() {
        return Err(texto_de("falta la ruta de la imagen"));
    }
    if o.texto.is_some() && o.archivo.is_some() {
        return Err(texto_de("usa --texto o --archivo, no ambos"));
    }
    Ok(o)
}

/// Lee la línea de órdenes `args` (sin el nombre del programa): qué se pide
/// y con qué opciones, o el mensaje de error (vacío si se pidió la ayuda).
pub fn interpretar(args: &[String]) -> (r: Result<Orden, String>)
    ensures
        match interpretacion(vistas(args@)) {
            Err(m) => r matches Err(s) && s@ == m,
            Ok(e) => r matches Ok(o) && o.leido() == e,
        },
{
    leer_cli(args)
}

} // verus!
