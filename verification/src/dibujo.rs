//! El caligrama entero: de las opciones y el texto a los fotogramas, con la
//! rejilla de cada ancho (y de cada fotograma) muestreada por quien conoce
//! la proporción de las celdas.

use vstd::prelude::*;

use crate::animacion::{desfases, fotogramas, ley_bucle_sin_costura, mcd_de, num_fotogramas};
use crate::composicion::{
    celda, componer, dibujo, es_recorte, hay_figura, lema_recorte_unico, ley_ciclo, recorte_de,
    vista_rejilla, vista_rejillas,
};
use crate::analisis::{analizable, analizar, es_analisis, suma, Analisis};
use crate::composicion::cuenta;
use crate::rejilla::{ajuste, ancho_para, columnas, da};
use crate::texto::contar_letras;
use crate::texto::{ciclo_de, en_blanco, grafemas_de, limpio, Texto};
use crate::{Ancho, Error, Espacios, Opciones, ANCHO_AUTO_MAX};

verus! {

/// Lo que dice un ancho fijo de 0 columnas.
pub const MAL_ANCHO_CERO: &'static str = "ancho debe ser > 0";

/// Lo que dice una proporción de celda que no es positiva.
pub const MAL_ASPECTO: &'static str = "aspecto debe ser > 0";

/// Lo que dice un latido fuera de `0..1`.
pub const MAL_LATIDO: &'static str = "latido debe estar entre 0 y 1";

/// Lo que dice pedir 0 fotogramas.
pub const MAL_FOTOGRAMAS: &'static str = "fotogramas debe ser > 0";

/// El ancho `n` es el que corresponde a `ancho` para `letras` letras: el
/// fijo, o con `Ancho::Auto` el que da la búsqueda con esa capacidad.
pub open spec fn elegido<G: Fn(usize) -> usize>(
    ancho: Ancho,
    capacidad: G,
    letras: usize,
    n: usize,
) -> bool {
    match ancho {
        Ancho::Fijo(m) => n == m,
        Ancho::Auto => ajuste(capacidad, letras, Ok(n)),
    }
}

/// El error de ajuste de ancho que puede dar `ancho` para `letras` letras.
pub open spec fn fallo_de_ancho<G: Fn(usize) -> usize>(
    ancho: Ancho,
    capacidad: G,
    letras: usize,
    e: Error,
) -> bool {
    ancho is Auto && ajuste(capacidad, letras, Err(e))
}

/// Las comprobaciones de `Silueta::nueva`: un ancho fijo de 0 columnas o una
/// proporción de celda no positiva son opciones inválidas.
pub open spec fn fallo_de_silueta(op: Opciones, aspecto_valido: bool) -> Option<Error> {
    if op.ancho == Ancho::Fijo(0) {
        Some(Error::OpcionInvalida(MAL_ANCHO_CERO))
    } else if !aspecto_valido {
        Some(Error::OpcionInvalida(MAL_ASPECTO))
    } else {
        None
    }
}

/// Las comprobaciones de la silueta (ver `fallo_de_silueta`).
pub fn comprobar_silueta(op: &Opciones, aspecto_valido: bool) -> (r: Result<(), Error>)
    ensures
        match fallo_de_silueta(*op, aspecto_valido) {
            Some(e) => r == Err::<(), Error>(e),
            None => r is Ok,
        },
{
    match op.ancho {
        Ancho::Fijo(0) => Err(Error::OpcionInvalida(MAL_ANCHO_CERO)),
        _ => if !aspecto_valido {
            Err(Error::OpcionInvalida(MAL_ASPECTO))
        } else {
            Ok(())
        },
    }
}

/// Escribe `texto` dentro de la silueta y devuelve el dibujo: primero las
/// comprobaciones de la silueta (`aspecto_valido` dice si la proporción de
/// las celdas es un número positivo), luego el texto, el ancho (`capacidad`
/// da las letras que caben a cada ancho) y la rejilla a ese ancho
/// (`rejilla_de`), donde se escribe el texto desde `op.desfase`.
pub fn dibujar<G: Fn(usize) -> usize, F: Fn(usize) -> Vec<Vec<bool>>>(
    texto: &str,
    op: &Opciones,
    aspecto_valido: bool,
    capacidad: G,
    rejilla_de: F,
) -> (r: Result<String, Error>)
    requires
        forall|n: usize| 1 <= n <= ANCHO_AUTO_MAX ==> call_requires(capacidad, (n,)),
        forall|n: usize| call_requires(rejilla_de, (n,)),
    ensures
        fallo_de_silueta(*op, aspecto_valido) matches Some(e) ==> r == Err::<String, Error>(e),
        fallo_de_silueta(*op, aspecto_valido) is None && en_blanco(texto@) ==> r == Err::<
            String,
            Error,
        >(Error::TextoVacio),
        fallo_de_silueta(*op, aspecto_valido) is None && !en_blanco(texto@) ==> {
            let letras = grafemas_de(limpio(texto@, op.espacios)).len() as usize;
            let ciclo = ciclo_de(texto@, op.espacios, op.repetir);
            &&& r matches Ok(s) ==> exists|n: usize, rej: Vec<Vec<bool>>|
                elegido(op.ancho, capacidad, letras, n) && #[trigger] call_ensures(
                    rejilla_de,
                    (n,),
                    rej,
                ) && hay_figura(seq![vista_rejilla(rej@)]) && s@ == dibujo(
                    vista_rejilla(rej@),
                    recorte_de(seq![vista_rejilla(rej@)]).0,
                    recorte_de(seq![vista_rejilla(rej@)]).1,
                    recorte_de(seq![vista_rejilla(rej@)]).2,
                    op.desfase as int,
                    ciclo,
                    op.repetir,
                )
            &&& r matches Err(e) ==> fallo_de_ancho(op.ancho, capacidad, letras, e) || (
            e is SiluetaVacia && exists|n: usize, rej: Vec<Vec<bool>>|
                elegido(op.ancho, capacidad, letras, n) && #[trigger] call_ensures(
                    rejilla_de,
                    (n,),
                    rej,
                ) && !hay_figura(seq![vista_rejilla(rej@)]))
            &&& (op.ancho is Fijo || forall|c: usize|
                #[trigger] da(capacidad, ANCHO_AUTO_MAX as int, c) ==> c >= letras) && (forall|
                n: usize,
                rej: Vec<Vec<bool>>,
            |
                elegido(op.ancho, capacidad, letras, n) && #[trigger] call_ensures(
                    rejilla_de,
                    (n,),
                    rej,
                ) ==> hay_figura(seq![vista_rejilla(rej@)])) ==> r is Ok
        },
{
    match comprobar_silueta(op, aspecto_valido) {
        Err(e) => {
            return Err(e);
        },
        Ok(()) => {},
    }
    let t = match Texto::nuevo(texto, op.espacios, op.repetir) {
        Err(e) => {
            return Err(e);
        },
        Ok(t) => t,
    };
    let n = match columnas(op.ancho, t.letras, capacidad) {
        Err(e) => {
            return Err(e);
        },
        Ok(n) => n,
    };
    let rej = rejilla_de(n);
    let mut una: Vec<Vec<Vec<bool>>> = Vec::new();
    una.push(rej);
    let ghost rej0 = una@[0];
    assert(vista_rejillas(una@) =~= seq![vista_rejilla(rej0@)]);
    let mut ds: Vec<usize> = Vec::new();
    ds.push(op.desfase);
    match componer(una.as_slice(), &t, ds.as_slice()) {
        Err(e) => Err(e),
        Ok(mut fotos) => {
            let s = fotos.remove(0);
            Ok(s)
        },
    }
}

/// Las comprobaciones de una animación, en orden: el latido está en `0..1`
/// (`latido_valido`), no se piden 0 fotogramas y la silueta es válida.
pub fn comprobar_animacion(
    latido_valido: bool,
    pedidos: Option<usize>,
    op: &Opciones,
    aspecto_valido: bool,
) -> (r: Result<(), Error>)
    ensures
        !latido_valido ==> r == Err::<(), Error>(Error::OpcionInvalida(MAL_LATIDO)),
        latido_valido && pedidos == Some(0usize) ==> r == Err::<(), Error>(
            Error::OpcionInvalida(MAL_FOTOGRAMAS),
        ),
        latido_valido && pedidos != Some(0usize) ==> match fallo_de_silueta(*op, aspecto_valido) {
            Some(e) => r == Err::<(), Error>(e),
            None => r is Ok,
        },
{
    if !latido_valido {
        return Err(Error::OpcionInvalida(MAL_LATIDO));
    }
    if let Some(0) = pedidos {
        return Err(Error::OpcionInvalida(MAL_FOTOGRAMAS));
    }
    comprobar_silueta(op, aspecto_valido)
}

/// Las rejillas `rs` son las de los `rs.len()` fotogramas a `n` columnas.
pub open spec fn son_fotogramas<F: Fn(usize, usize, usize) -> Vec<Vec<bool>>>(
    fotograma_de: F,
    n: usize,
    rs: Seq<Vec<Vec<bool>>>,
) -> bool {
    forall|k: int|
        0 <= k < rs.len() ==> #[trigger] call_ensures(
            fotograma_de,
            (k as usize, rs.len() as usize, n),
            rs[k],
        )
}

/// Las rejillas de unos fotogramas, por sus valores.
pub open spec fn vistas_de(rs: Seq<Vec<Vec<bool>>>) -> Seq<Seq<Seq<bool>>> {
    rs.map_values(|r: Vec<Vec<bool>>| vista_rejilla(r@))
}

/// Fotogramas del caligrama animado: el texto avanza `paso` letras por
/// fotograma y todos se recortan igual (mismas filas, alineados). Antes
/// que nada se comprueban el latido (`latido_valido`: está en `0..1`) y que
/// no se pidan 0 fotogramas; luego, como `dibujar`, la silueta, el texto y
/// el ancho. Cuántos fotogramas: los pedidos o `num_fotogramas` (`late`:
/// el latido es mayor que 0). La rejilla del fotograma `k` de `total` a
/// `n` columnas la da `fotograma_de(k, total, n)`.
pub fn animar<G: Fn(usize) -> usize, F: Fn(usize, usize, usize) -> Vec<Vec<bool>>>(
    texto: &str,
    op: &Opciones,
    pedidos: Option<usize>,
    paso: usize,
    latido_valido: bool,
    late: bool,
    aspecto_valido: bool,
    capacidad: G,
    fotograma_de: F,
) -> (r: Result<Vec<String>, Error>)
    requires
        forall|n: usize| 1 <= n <= ANCHO_AUTO_MAX ==> call_requires(capacidad, (n,)),
        forall|k: usize, total: usize, n: usize| call_requires(fotograma_de, (k, total, n)),
        !en_blanco(texto@) ==> ({
            let nf = num_fotogramas(
                pedidos,
                paso,
                late,
                ciclo_de(texto@, op.espacios, op.repetir).len(),
            );
            nf > 0 ==> op.desfase + (nf - 1) * paso <= usize::MAX
        }),
    ensures
        !latido_valido ==> r == Err::<Vec<String>, Error>(Error::OpcionInvalida(MAL_LATIDO)),
        latido_valido && pedidos == Some(0usize) ==> r == Err::<Vec<String>, Error>(
            Error::OpcionInvalida(MAL_FOTOGRAMAS),
        ),
        latido_valido && pedidos != Some(0usize) ==> {
            &&& fallo_de_silueta(*op, aspecto_valido) matches Some(e) ==> r == Err::<
                Vec<String>,
                Error,
            >(e)
            &&& fallo_de_silueta(*op, aspecto_valido) is None && en_blanco(texto@) ==> r == Err::<
                Vec<String>,
                Error,
            >(Error::TextoVacio)
            &&& fallo_de_silueta(*op, aspecto_valido) is None && !en_blanco(texto@) ==> {
                let letras = grafemas_de(limpio(texto@, op.espacios)).len() as usize;
                let ciclo = ciclo_de(texto@, op.espacios, op.repetir);
                let nf = num_fotogramas(pedidos, paso, late, ciclo.len());
                &&& r matches Ok(v) ==> exists|n: usize, rs: Seq<Vec<Vec<bool>>>|
                    #![trigger son_fotogramas(fotograma_de, n, rs)]
                    elegido(op.ancho, capacidad, letras, n) && rs.len() == nf && son_fotogramas(
                        fotograma_de,
                        n,
                        rs,
                    ) && hay_figura(vistas_de(rs)) && v@.len() == nf && forall|k: int|
                        0 <= k < nf ==> (#[trigger] v@[k])@ == dibujo(
                            vistas_de(rs)[k],
                            recorte_de(vistas_de(rs)).0,
                            recorte_de(vistas_de(rs)).1,
                            recorte_de(vistas_de(rs)).2,
                            op.desfase + k * paso,
                            ciclo,
                            op.repetir,
                        )
                &&& r matches Err(e) ==> fallo_de_ancho(op.ancho, capacidad, letras, e) || (
                e is SiluetaVacia && exists|n: usize, rs: Seq<Vec<Vec<bool>>>|
                    #![trigger son_fotogramas(fotograma_de, n, rs)]
                    elegido(op.ancho, capacidad, letras, n) && rs.len() == nf && son_fotogramas(
                        fotograma_de,
                        n,
                        rs,
                    ) && !hay_figura(vistas_de(rs)))
                &&& (op.ancho is Fijo || forall|c: usize|
                    #[trigger] da(capacidad, ANCHO_AUTO_MAX as int, c) ==> c >= letras) && (forall|
                    n: usize,
                    rs: Seq<Vec<Vec<bool>>>,
                |
                    #![trigger son_fotogramas(fotograma_de, n, rs)]
                    elegido(op.ancho, capacidad, letras, n) && rs.len() == nf && son_fotogramas(
                        fotograma_de,
                        n,
                        rs,
                    ) ==> hay_figura(vistas_de(rs))) ==> r is Ok
            }
        },
{
    match comprobar_animacion(latido_valido, pedidos, op, aspecto_valido) {
        Err(e) => {
            return Err(e);
        },
        Ok(()) => {},
    }
    let t = match Texto::nuevo(texto, op.espacios, op.repetir) {
        Err(e) => {
            return Err(e);
        },
        Ok(t) => t,
    };
    let n = match columnas(op.ancho, t.letras, capacidad) {
        Err(e) => {
            return Err(e);
        },
        Ok(n) => n,
    };
    let ciclo = t.ciclo();
    let nf = fotogramas(pedidos, paso, late, ciclo);
    let mut rs: Vec<Vec<Vec<bool>>> = Vec::new();
    let mut k: usize = 0;
    while k < nf
        invariant
            k <= nf,
            rs@.len() == k,
            forall|k: usize, total: usize, n: usize| call_requires(fotograma_de, (k, total, n)),
            forall|j: int|
                0 <= j < k ==> #[trigger] call_ensures(fotograma_de, (j as usize, nf, n), rs@[j]),
        decreases nf - k,
    {
        let rej = fotograma_de(k, nf, n);
        rs.push(rej);
        k = k + 1;
    }
    assert(son_fotogramas(fotograma_de, n, rs@));
    assert(vistas_de(rs@) =~= vista_rejillas(rs@));
    let ds = desfases(op.desfase, paso, nf);
    componer(rs.as_slice(), &t, ds.as_slice())
}

/// Lo que dice `ancho = "auto"` sin un texto al que ajustarse.
pub const MAL_AUTO_SIN_TEXTO: &'static str = "ancho=\"auto\" necesita un texto";

/// Los anchos de referencia que se comparan en el informe.
pub open spec fn anchos_tabla() -> Seq<usize> {
    seq![30, 40, 50, 60, 80, 100, 120]
}

/// Las letras de cada fila del recorte de una rejilla.
pub open spec fn fila_cuentas(rv: Seq<Seq<bool>>) -> Seq<usize> {
    let (p, u, m) = recorte_de(seq![rv]);
    Seq::new((u - p + 1) as nat, |i: int| cuenta(rv[p + i]) as usize)
}

/// Filas del recorte de una rejilla.
pub open spec fn filas_de(rv: Seq<Seq<bool>>) -> usize {
    let (p, u, m) = recorte_de(seq![rv]);
    (u - p + 1) as usize
}

/// La tabla del informe para las rejillas `rvs` de los anchos `anchos`:
/// `(ancho, filas, letras)` de cada una que tiene figura, en orden.
pub open spec fn tabla_de(rvs: Seq<Seq<Seq<bool>>>, anchos: Seq<usize>) -> Seq<(usize, usize, usize)>
    decreases rvs.len(),
{
    if rvs.len() == 0 {
        seq![]
    } else {
        let resto = tabla_de(rvs.drop_last(), anchos.drop_last());
        let rv = rvs.last();
        if hay_figura(seq![rv]) {
            resto.push((anchos.last(), filas_de(rv), suma(fila_cuentas(rv)) as usize))
        } else {
            resto
        }
    }
}

/// Todo lo que se informa de una silueta.
#[derive(Debug)]
pub struct Informe {
    pub analisis: Analisis,
    /// `(ancho, filas, letras)` para cada ancho de referencia con figura.
    pub tabla: Vec<(usize, usize, usize)>,
    /// Letras del texto y ancho en el que cabe (o por qué no cabe nunca).
    pub texto: Option<(usize, Result<usize, Error>)>,
}

proof fn lema_analisis_resumen(a: Analisis, rv: Seq<Seq<bool>>, n: usize)
    requires
        hay_figura(seq![rv]),
        es_analisis(a, rv, n),
    ensures
        a.filas == filas_de(rv),
        a.letras == suma(fila_cuentas(rv)),
{
    assert(a.por_fila@ =~= fila_cuentas(rv));
}

/// El ancho `n` es el que analiza el informe: el fijo, o con `Ancho::Auto`
/// el que da la búsqueda para las letras del texto.
pub open spec fn ancho_del_informe<G: Fn(usize) -> usize>(
    ancho: Ancho,
    capacidad: G,
    texto: Option<&str>,
    espacios: Espacios,
    n: usize,
) -> bool {
    match ancho {
        Ancho::Fijo(m) => n == m,
        Ancho::Auto => texto matches Some(t) && ajuste(
            capacidad,
            grafemas_de(limpio(t@, espacios)).len() as usize,
            Ok(n),
        ),
    }
}

/// Examina la silueta sin escribir nada: el análisis al ancho de las
/// opciones (con `Ancho::Auto`, al que cabe el texto), la tabla de los
/// anchos de referencia y, si hay texto, sus letras y el ancho en que cabe.
pub fn informe<G: Fn(usize) -> usize, F: Fn(usize) -> Vec<Vec<bool>>>(
    texto: Option<&str>,
    op: &Opciones,
    aspecto_valido: bool,
    capacidad: G,
    rejilla_de: F,
) -> (r: Result<Informe, Error>)
    requires
        forall|n: usize| 1 <= n <= ANCHO_AUTO_MAX ==> call_requires(capacidad, (n,)),
        forall|n: usize| call_requires(rejilla_de, (n,)),
        forall|n: usize, rej: Vec<Vec<bool>>|
            #[trigger] call_ensures(rejilla_de, (n,), rej) ==> analizable(vista_rejilla(rej@)),
    ensures
        fallo_de_silueta(*op, aspecto_valido) matches Some(e) ==> r == Err::<Informe, Error>(e),
        fallo_de_silueta(*op, aspecto_valido) is None ==> {
            &&& r matches Ok(inf) ==> {
                &&& texto is None <==> inf.texto is None
                &&& texto matches Some(t) ==> inf.texto matches Some(par) && par.0
                    == grafemas_de(limpio(t@, op.espacios)).len() && ajuste(
                    capacidad,
                    par.0,
                    par.1,
                )
                &&& exists|n: usize, rej: Vec<Vec<bool>>|
                    #[trigger] call_ensures(rejilla_de, (n,), rej) && hay_figura(
                        seq![vista_rejilla(rej@)],
                    ) && es_analisis(inf.analisis, vista_rejilla(rej@), n) && (op.ancho matches Ancho::Fijo(
                        m,
                    ) ==> n == m) && (op.ancho is Auto ==> (inf.texto matches Some(par) && par.1
                        == Ok::<usize, Error>(n)))
                &&& exists|rs: Seq<Vec<Vec<bool>>>|
                    #![trigger vistas_de(rs)]
                    rs.len() == 7 && (forall|k: int|
                        0 <= k < 7 ==> #[trigger] call_ensures(
                            rejilla_de,
                            (anchos_tabla()[k],),
                            rs[k],
                        )) && inf.tabla@ == tabla_de(
                        vistas_de(rs),
                        anchos_tabla(),
                    )
            }
            &&& (op.ancho is Fijo || (texto matches Some(t) && grafemas_de(
                limpio(t@, op.espacios),
            ).len() > 0 && forall|c: usize|
                #[trigger] da(capacidad, ANCHO_AUTO_MAX as int, c) ==> c >= grafemas_de(
                    limpio(t@, op.espacios),
                ).len())) && (forall|n: usize, rej: Vec<Vec<bool>>|
                ancho_del_informe(op.ancho, capacidad, texto, op.espacios, n) && #[trigger] call_ensures(
                    rejilla_de,
                    (n,),
                    rej,
                ) ==> hay_figura(seq![vista_rejilla(rej@)])) ==> r is Ok
            &&& r matches Err(e) ==> (op.ancho is Auto && texto is None && e == Error::OpcionInvalida(
                MAL_AUTO_SIN_TEXTO,
            )) || (op.ancho is Auto && (texto matches Some(t) && ajuste(
                capacidad,
                grafemas_de(limpio(t@, op.espacios)).len() as usize,
                Err(e),
            ))) || (e is SiluetaVacia && exists|n: usize, rej: Vec<Vec<bool>>|
                ancho_del_informe(op.ancho, capacidad, texto, op.espacios, n) && #[trigger] call_ensures(
                    rejilla_de,
                    (n,),
                    rej,
                ) && !hay_figura(seq![vista_rejilla(rej@)]))
        },
{
    match comprobar_silueta(op, aspecto_valido) {
        Err(e) => {
            return Err(e);
        },
        Ok(()) => {},
    }
    let mut ajuste_texto: Option<(usize, Result<usize, Error>)> = match texto {
        Some(t) => {
            let letras = contar_letras(t, op.espacios);
            Some((letras, ancho_para(letras, capacidad)))
        },
        None => None,
    };
    let n = match op.ancho {
        Ancho::Fijo(n) => n,
        Ancho::Auto => match &ajuste_texto {
            Some((_, Ok(n))) => *n,
            _ => match ajuste_texto.take() {
                Some((_, Err(e))) => {
                    return Err(e);
                },
                _ => {
                    return Err(Error::OpcionInvalida(MAL_AUTO_SIN_TEXTO));
                },
            },
        },
    };
    let anchos: [usize; 7] = [30, 40, 50, 60, 80, 100, 120];
    assert(anchos@ =~= anchos_tabla());
    let mut tabla: Vec<(usize, usize, usize)> = Vec::new();
    let ghost mut rs: Seq<Vec<Vec<bool>>> = Seq::empty();
    let mut k: usize = 0;
    while k < 7
        invariant
            k <= 7,
            anchos@ == anchos_tabla(),
            forall|n: usize| call_requires(rejilla_de, (n,)),
            forall|n: usize, rej: Vec<Vec<bool>>|
                #[trigger] call_ensures(rejilla_de, (n,), rej) ==> analizable(
                    vista_rejilla(rej@),
                ),
            rs.len() == k,
            forall|j: int| 0 <= j < k ==> #[trigger] call_ensures(rejilla_de, (anchos_tabla()[j],), rs[j]),
            tabla@ == tabla_de(
                vistas_de(rs),
                anchos_tabla().take(k as int),
            ),
        decreases 7 - k,
    {
        let w = anchos[k];
        let rej = rejilla_de(w);
        let ghost antes = rs;
        proof {
            rs = rs.push(rej);
            assert(vistas_de(rs).drop_last() =~= vistas_de(antes));
            assert(anchos_tabla().take(k + 1).drop_last() =~= anchos_tabla().take(k as int));
        }
        match analizar(rej.as_slice(), w) {
            Ok(a) => {
                proof {
                    lema_analisis_resumen(a, vista_rejilla(rej@), w);
                }
                tabla.push((w, a.filas, a.letras));
            },
            Err(_) => {},
        }
        k = k + 1;
    }
    assert(anchos_tabla().take(7) =~= anchos_tabla());
    let rej = rejilla_de(n);
    match analizar(rej.as_slice(), n) {
        Err(e) => Err(e),
        Ok(a) => {
            let inf = Informe { analisis: a, tabla, texto: ajuste_texto };
            assert(inf.tabla@ == tabla_de(vistas_de(rs), anchos_tabla()));
            assert(call_ensures(rejilla_de, (n,), rej));
            Ok(inf)
        },
    }
}

/// Ley de las vueltas: con repetición, empezar `j` ciclos enteros más
/// adelante da el mismo dibujo, así que el texto que da vueltas no tiene
/// costura.
pub proof fn ley_ciclos(
    r: Seq<Seq<bool>>,
    p: int,
    u: int,
    m: int,
    d: int,
    g: Seq<Seq<char>>,
    j: nat,
)
    requires
        g.len() > 0,
    ensures
        dibujo(r, p, u, m, d + j * g.len(), g, true) == dibujo(r, p, u, m, d, g, true),
    decreases j,
{
    if j > 0 {
        ley_ciclos(r, p, u, m, d, g, (j - 1) as nat);
        ley_ciclo(r, p, u, m, d + (j - 1) * g.len(), g);
        assert(d + (j - 1) * g.len() + g.len() == d + j * g.len()) by (nonlinear_arith);
    } else {
        assert(d + j * g.len() == d) by (nonlinear_arith)
            requires
                j == 0,
        ;
    }
}

/// La animación cierra el bucle: con repetición y un paso positivo, el
/// fotograma que seguiría al último de los `ciclo / mcd(ciclo, paso)` que
/// se calculan solos (el de desfase `d + n * paso`) es otra vez el primero.
pub proof fn ley_animacion_cerrada(
    r: Seq<Seq<bool>>,
    p: int,
    u: int,
    m: int,
    d: int,
    g: Seq<Seq<char>>,
    paso: nat,
)
    requires
        g.len() > 0,
        paso > 0,
    ensures
        ({
            let n = (g.len() / mcd_de(g.len(), paso)) as int;
            dibujo(r, p, u, m, d + n * paso, g, true) == dibujo(r, p, u, m, d, g, true)
        }),
{
    ley_bucle_sin_costura(g.len(), paso);
    let c = g.len() as int;
    let n = (g.len() / mcd_de(g.len(), paso)) as int;
    vstd::arithmetic::div_mod::lemma_fundamental_div_mod(n * paso, c);
    let j = (n * paso) / c;
    assert(n * paso == j * c) by (nonlinear_arith)
        requires
            n * paso == c * j + (n * paso) % c,
            (n * paso) % c == 0,
    ;
    assert(j >= 0) by (nonlinear_arith)
        requires
            n * paso == j * c,
            n > 0,
            paso > 0,
            c > 0,
    ;
    ley_ciclos(r, p, u, m, d, g, j as nat);
}

/// Ley de la figura quieta: si todos los `n` fotogramas tienen la misma
/// rejilla `r` (sin latido), se recortan igual que el dibujo suelto de `r`,
/// así que el fotograma `k` es el dibujo con el texto adelantado `k * paso`
/// letras.
pub proof fn ley_figura_quieta(r: Seq<Seq<bool>>, n: nat, p: int, u: int, m: int)
    requires
        n > 0,
        es_recorte(seq![r], p, u, m),
    ensures
        recorte_de(Seq::new(n, |k: int| r)) == recorte_de(seq![r]),
        recorte_de(seq![r]) == (p, u, m),
{
    let uno = seq![r];
    let rs = Seq::new(n, |k: int| r);
    assert(uno[0] == r);
    assert(rs[0] == r);
    let (k1, x1) = choose|k: int, x: int| celda(uno, k, p, x);
    assert(celda(rs, 0, p, x1));
    let (k2, x2) = choose|k: int, x: int| celda(uno, k, u, x);
    assert(celda(rs, 0, u, x2));
    let (k3, y3) = choose|k: int, y: int| celda(uno, k, y, m);
    assert(celda(rs, 0, y3, m));
    assert forall|k: int, y: int, x: int| celda(rs, k, y, x) implies p <= y <= u && m <= x by {
        assert(rs[k] == r);
        assert(celda(uno, 0, y, x));
    }
    assert(es_recorte(rs, p, u, m));
    lema_recorte_unico(rs, p, u, m);
    lema_recorte_unico(uno, p, u, m);
}

} // verus!
