//! La reproducción en la terminal, paso a paso: qué fotograma se escribe, si
//! antes hay que subir el cursor y cuándo se termina. Quien la ejecuta
//! escribe, espera y atiende las interrupciones.

use vstd::arithmetic::div_mod::lemma_fundamental_div_mod_converse;
use vstd::prelude::*;

use crate::texto::cadena;

verus! {

/// Por dónde va la reproducción: la vuelta, el fotograma siguiente y si aún
/// no se ha escrito ninguno.
#[derive(Clone, Copy, Debug, PartialEq, Eq, Structural)]
pub struct Reproduccion {
    pub vuelta: usize,
    pub indice: usize,
    pub primero: bool,
}

/// Lo que toca hacer.
#[derive(Clone, Copy, Debug, PartialEq, Eq, Structural)]
pub enum Accion {
    /// Escribir el fotograma `indice`, subiendo antes el cursor al principio
    /// del anterior si `subir_antes`.
    Escribir { indice: usize, subir_antes: bool },
    /// Dar por acabada una vuelta sin fotogramas.
    Pasar,
    /// Terminar.
    Terminar,
}

/// Antes de empezar.
pub open spec fn inicial() -> Reproduccion {
    Reproduccion { vuelta: 0, indice: 0, primero: true }
}

/// ¿Quedan vueltas? Sin límite, siempre.
pub open spec fn quedan(vuelta: usize, veces: Option<usize>) -> bool {
    match veces {
        Some(v) => vuelta < v,
        None => true,
    }
}

/// El paso desde `e` con `total` fotogramas y `veces` vueltas (sin límite
/// si es `None`): terminar si no quedan vueltas; si no, escribir el
/// fotograma que toca y pasar al siguiente, o a la vuelta siguiente tras el
/// último.
pub open spec fn paso_de(e: Reproduccion, total: nat, veces: Option<usize>) -> (
    Reproduccion,
    Accion,
) {
    if !quedan(e.vuelta, veces) {
        (e, Accion::Terminar)
    } else if total == 0 {
        (Reproduccion { vuelta: (e.vuelta + 1) as usize, indice: 0, primero: e.primero }, Accion::Pasar)
    } else {
        (
            if e.indice + 1 == total {
                Reproduccion { vuelta: (e.vuelta + 1) as usize, indice: 0, primero: false }
            } else {
                Reproduccion { vuelta: e.vuelta, indice: (e.indice + 1) as usize, primero: false }
            },
            Accion::Escribir { indice: e.indice, subir_antes: !e.primero },
        )
    }
}

/// El estado tras `k` pasos desde el principio.
pub open spec fn tras(k: nat, total: nat, veces: Option<usize>) -> Reproduccion
    decreases k,
{
    if k == 0 {
        inicial()
    } else {
        paso_de(tras((k - 1) as nat, total, veces), total, veces).0
    }
}

impl Reproduccion {
    /// Antes de empezar: vuelta 0, primer fotograma, nada escrito.
    pub fn nueva() -> (e: Reproduccion)
        ensures
            e == inicial(),
    {
        Reproduccion { vuelta: 0, indice: 0, primero: true }
    }
}

/// El paso siguiente de la reproducción (ver `paso_de`). Contar una vuelta
/// más de `usize::MAX` desbordaría el contador.
pub fn siguiente(e: &Reproduccion, total: usize, veces: Option<usize>) -> (r: (Reproduccion, Accion))
    requires
        total > 0 ==> e.indice < total,
        quedan(e.vuelta, veces) && (total == 0 || e.indice + 1 == total) ==> e.vuelta < usize::MAX,
    ensures
        r == paso_de(*e, total as nat, veces),
{
    let quedan_vueltas = match veces {
        Some(v) => e.vuelta < v,
        None => true,
    };
    if !quedan_vueltas {
        (*e, Accion::Terminar)
    } else if total == 0 {
        (Reproduccion { vuelta: e.vuelta + 1, indice: 0, primero: e.primero }, Accion::Pasar)
    } else {
        let sig = if e.indice + 1 == total {
            Reproduccion { vuelta: e.vuelta + 1, indice: 0, primero: false }
        } else {
            Reproduccion { vuelta: e.vuelta, indice: e.indice + 1, primero: false }
        };
        (sig, Accion::Escribir { indice: e.indice, subir_antes: !e.primero })
    }
}

/// Lo que se escribe al empezar: ocultar el cursor.
pub fn al_empezar() -> (s: String)
    ensures
        s@ == seq!['\x1b', '[', '?', '2', '5', 'l'],
{
    let c = vec!['\x1b', '[', '?', '2', '5', 'l'];
    assert(c@ =~= seq!['\x1b', '[', '?', '2', '5', 'l']);
    cadena(c.as_slice())
}

/// Lo que se escribe al terminar, pase lo que pase: quitar el color y
/// volver a mostrar el cursor, y un salto de línea.
pub fn al_terminar() -> (s: String)
    ensures
        s@ == seq!['\x1b', '[', '0', 'm', '\x1b', '[', '?', '2', '5', 'h', '\n'],
{
    let c = vec!['\x1b', '[', '0', 'm', '\x1b', '[', '?', '2', '5', 'h', '\n'];
    assert(c@ =~= seq!['\x1b', '[', '0', 'm', '\x1b', '[', '?', '2', '5', 'h', '\n']);
    cadena(c.as_slice())
}

proof fn lema_tras(k: nat, total: nat, v: usize)
    requires
        0 < total <= usize::MAX,
        k <= v * total,
    ensures
        tras(k, total, Some(v)) == (Reproduccion {
            vuelta: (k / total) as usize,
            indice: (k % total) as usize,
            primero: k == 0,
        }),
    decreases k,
{
    if k > 0 {
        let k1 = (k - 1) as nat;
        lema_tras(k1, total, v);
        let q = k1 / total;
        let r = k1 % total;
        vstd::arithmetic::div_mod::lemma_fundamental_div_mod(k1 as int, total as int);
        assert(q < v) by (nonlinear_arith)
            requires
                k1 == total * q + r,
                0 <= r < total,
                k1 < v * total,
        ;
        assert(q * total <= v * total) by (nonlinear_arith)
            requires
                q < v,
        ;
        assert(r < total && q + 1 <= v);
        if r + 1 == total {
            assert(k == (q + 1) * total + 0) by (nonlinear_arith)
                requires
                    k1 == total * q + r,
                    r + 1 == total,
                    k == k1 + 1,
            ;
            lemma_fundamental_div_mod_converse(k as int, total as int, (q + 1) as int, 0);
        } else {
            assert(k == q * total + (r + 1)) by (nonlinear_arith)
                requires
                    k1 == total * q + r,
                    k == k1 + 1,
            ;
            lemma_fundamental_div_mod_converse(k as int, total as int, q as int, (r + 1) as int);
        }
    } else {
        assert(0nat / total == 0 && 0nat % total == 0) by (nonlinear_arith)
            requires
                total > 0,
        ;
    }
}

/// Ley de las vueltas: con `v` vueltas pedidas y `total > 0` fotogramas,
/// los `v * total` primeros pasos escriben los fotogramas en orden, una vuelta
/// tras otra (subiendo el cursor antes de cada uno salvo el primero), y el
/// paso siguiente termina.
pub proof fn ley_vueltas(total: nat, v: usize)
    requires
        0 < total <= usize::MAX,
    ensures
        forall|k: nat|
            k < v * total ==> #[trigger] paso_de(tras(k, total, Some(v)), total, Some(v)).1
                == (Accion::Escribir { indice: (k % total) as usize, subir_antes: k > 0 }),
        paso_de(tras((v * total) as nat, total, Some(v)), total, Some(v)).1 == Accion::Terminar,
{
    assert forall|k: nat| k < v * total implies #[trigger] paso_de(
        tras(k, total, Some(v)),
        total,
        Some(v),
    ).1 == (Accion::Escribir { indice: (k % total) as usize, subir_antes: k > 0 }) by {
        lema_tras(k, total, v);
        vstd::arithmetic::div_mod::lemma_fundamental_div_mod(k as int, total as int);
        assert(k / total < v) by (nonlinear_arith)
            requires
                k == total * (k / total) + k % total,
                0 <= k % total < total,
                k < v * total,
        ;
    }
    lema_tras((v * total) as nat, total, v);
    assert((v * total) / (total as int) == v) by {
        lemma_fundamental_div_mod_converse((v * total) as int, total as int, v as int, 0);
    }
}

} // verus!
