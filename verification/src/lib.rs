//! Caligramas: escribe un texto dentro de la silueta de una imagen.
//!
//! La biblioteca verificada cubre todo lo que decide el dibujo: la limpieza
//! del texto y su reparto en grafemas, la máscara de figura y fondo, la
//! rejilla de celdas, la composición de los fotogramas y sus análisis.

pub mod analisis;
pub mod ansi;
pub mod cli;
pub mod color_imagen;
pub mod animacion;
pub mod completo;
pub mod composicion;
pub mod dibujo;
pub mod formato;
pub mod lectura;
pub mod mascara;
pub mod morfologia;
pub mod rejilla;
pub mod reproduccion;
pub mod svg;
pub mod texto;

use vstd::prelude::*;

verus! {

/// Cómo se tratan los espacios en blanco del texto.
#[derive(Debug, Clone, Copy, PartialEq, Eq, Structural)]
pub enum Espacios {
    /// Colapsa espacios y saltos de línea en uno solo y separa cada
    /// repetición con un espacio.
    Normal,
    /// Quita todos los espacios; las repeticiones van pegadas.
    Sin,
    /// Conserva cada espacio tal cual (un salto de línea o tabulador = un
    /// espacio) y no añade ninguno entre repeticiones.
    Todos,
}

/// Columnas de la salida.
#[derive(Debug, Clone, Copy, PartialEq, Eq, Structural)]
pub enum Ancho {
    Fijo(usize),
    /// El menor ancho cuya silueta tiene sitio para todo el texto una vez.
    Auto,
}

/// Máximo de columnas que prueba `Ancho::Auto`.
pub const ANCHO_AUTO_MAX: usize = 1000;

/// Cómo convertir una imagen en caligrama (salvo la proporción de las
/// celdas, que queda en manos de quien muestrea la rejilla).
#[derive(Debug, Clone, Copy)]
pub struct Opciones {
    /// Columnas de la salida.
    pub ancho: Ancho,
    /// Repetir el texto hasta llenar la silueta.
    pub repetir: bool,
    pub espacios: Espacios,
    /// Umbral 0-255 de distancia al fondo; `None` = automático (Otsu).
    pub umbral: Option<u8>,
    /// Escribir en el fondo en lugar de en la figura.
    pub invertir: bool,
    /// Respetar los huecos interiores. Por defecto se rellenan: una zona del
    /// color del fondo pero encerrada por la figura es parte de la silueta.
    pub huecos: bool,
    /// Radio en píxeles de un cierre morfológico (dilatar + erosionar) que une
    /// trazos punteados o hechos de letras. 0 = desactivado.
    pub suavizar: usize,
    /// Letra del texto por la que se empieza a escribir (para hacerlo fluir).
    pub desfase: usize,
}

impl Default for Opciones {
    fn default() -> (op: Opciones)
        ensures
            op.ancho == Ancho::Fijo(60),
            op.repetir,
            op.espacios == Espacios::Normal,
            op.umbral is None,
            !op.invertir,
            !op.huecos,
            op.suavizar == 0,
            op.desfase == 0,
    {
        Opciones {
            ancho: Ancho::Fijo(60),
            repetir: true,
            espacios: Espacios::Normal,
            umbral: None,
            invertir: false,
            huecos: false,
            suavizar: 0,
            desfase: 0,
        }
    }
}

} // verus!

verus! {

/// El error con que `image` explica por qué no pudo leer una imagen.
#[verifier::external_type_specification]
#[verifier::external_body]
pub struct ErrorDeImagen(image::ImageError);

/// Por qué no se pudo hacer un caligrama.
#[derive(Debug)]
pub enum Error {
    /// No se pudo leer la imagen.
    Imagen(image::ImageError),
    TextoVacio,
    SiluetaVacia,
    OpcionInvalida(&'static str),
    /// El texto no cabe ni con el ancho máximo que se prueba.
    TextoLargo { letras: usize, maximo: usize },
}

impl From<image::ImageError> for Error {
    fn from(e: image::ImageError) -> (r: Error) {
        Error::Imagen(e)
    }
}

impl vstd::std_specs::convert::FromSpecImpl<image::ImageError> for Error {
    open spec fn obeys_from_spec() -> bool {
        true
    }

    open spec fn from_spec(e: image::ImageError) -> Error {
        Error::Imagen(e)
    }
}

} // verus!
