//! El texto tal como se escribe en las celdas: limpieza de espacios y
//! reparto en grafemas.

use unicode_segmentation::UnicodeSegmentation;
use vstd::prelude::*;

use crate::{Error, Espacios};

verus! {

/// Un carácter con la propiedad Unicode `White_Space` (lo que
/// `char::is_whitespace` reconoce).
pub open spec fn es_espacio(c: char) -> bool {
    let u = c as u32;
    ||| 9 <= u <= 13
    ||| u == 32
    ||| u == 0x85
    ||| u == 0xa0
    ||| u == 0x1680
    ||| 0x2000 <= u <= 0x200a
    ||| u == 0x2028
    ||| u == 0x2029
    ||| u == 0x202f
    ||| u == 0x205f
    ||| u == 0x3000
}

/// ¿Es `c` un espacio en blanco Unicode?
pub fn espacio(c: char) -> (r: bool)
    ensures
        r == es_espacio(c),
{
    let u = c as u32;
    (9 <= u && u <= 13) || u == 32 || u == 0x85 || u == 0xa0 || u == 0x1680 || (0x2000 <= u && u
        <= 0x200a) || u == 0x2028 || u == 0x2029 || u == 0x202f || u == 0x205f || u == 0x3000
}

} // verus!

verus! {

/// Los caracteres de `s`, en orden.
pub fn caracteres(s: &str) -> (v: Vec<char>)
    ensures
        v@ == s@,
{
    broadcast use vstd::string::group_string_axioms;

    let mut v: Vec<char> = Vec::new();
    for c in it: s.chars()
        invariant
            v@.len() == it.index(),
            forall|i: int| 0 <= i < v@.len() ==> v@[i] == it.seq()[i],
    {
        v.push(c);
    }
    assert(v@ =~= s@);
    v
}

} // verus!

verus! {

/// Los caracteres de `v` reunidos en un `String`.
///
/// Confía en `FromIterator<char>` de `String`: la cadena resultante tiene
/// exactamente esos caracteres y en ese orden.
#[verifier::external_body]
pub(crate) fn cadena(v: &[char]) -> (s: String)
    ensures
        s@ == v@,
{
    v.iter().collect()
}

/// `texto.split_whitespace().collect::<Vec<_>>().join(" ")`: cada racha de
/// espacios entre dos palabras queda en un solo `' '`; los de los extremos
/// desaparecen.
pub open spec fn colapsar(s: Seq<char>) -> Seq<char>
    decreases s.len(),
{
    if s.len() == 0 {
        seq![]
    } else {
        let previo = colapsar(s.drop_last());
        let c = s.last();
        if es_espacio(c) {
            previo
        } else if s.len() >= 2 && es_espacio(s[s.len() - 2]) && previo.len() > 0 {
            previo.push(' ').push(c)
        } else {
            previo.push(c)
        }
    }
}

/// `texto.split_whitespace().collect::<String>()`: sin ningún espacio.
pub open spec fn sin_espacios(s: Seq<char>) -> Seq<char>
    decreases s.len(),
{
    if s.len() == 0 {
        seq![]
    } else if es_espacio(s.last()) {
        sin_espacios(s.drop_last())
    } else {
        sin_espacios(s.drop_last()).push(s.last())
    }
}

/// Los primeros `i` caracteres de `s` tras `replace("\r\n", "\n")`: se
/// quita cada `'\r'` seguido de `'\n'`.
pub open spec fn sin_crlf_hasta(s: Seq<char>, i: int) -> Seq<char>
    decreases i,
{
    if i <= 0 {
        seq![]
    } else {
        let previo = sin_crlf_hasta(s, i - 1);
        if s[i - 1] == '\r' && i < s.len() && s[i] == '\n' {
            previo
        } else {
            previo.push(s[i - 1])
        }
    }
}

/// `s` sin los `'\n'` del final (`trim_end_matches('\n')`).
pub open spec fn sin_saltos_finales(s: Seq<char>) -> Seq<char>
    decreases s.len(),
{
    if s.len() > 0 && s.last() == '\n' {
        sin_saltos_finales(s.drop_last())
    } else {
        s
    }
}

/// `s` sin los espacios Unicode del final (`trim_end`).
pub open spec fn sin_espacio_final(s: Seq<char>) -> Seq<char>
    decreases s.len(),
{
    if s.len() > 0 && es_espacio(s.last()) {
        sin_espacio_final(s.drop_last())
    } else {
        s
    }
}

/// Cada espacio en blanco pasa a ser un `' '`.
pub open spec fn espacios_simples(s: Seq<char>) -> Seq<char> {
    s.map_values(|c: char| if es_espacio(c) { ' ' } else { c })
}

/// El texto tal como se escribirá en las celdas, sin el separador de
/// repetición.
pub open spec fn limpio(s: Seq<char>, espacios: Espacios) -> Seq<char> {
    match espacios {
        Espacios::Normal => colapsar(s),
        Espacios::Sin => sin_espacios(s),
        Espacios::Todos => espacios_simples(sin_saltos_finales(sin_crlf_hasta(s, s.len() as int))),
    }
}

/// ¿Es todo el texto espacio en blanco (o nada)?
pub open spec fn en_blanco(s: Seq<char>) -> bool {
    forall|i: int| 0 <= i < s.len() ==> es_espacio(#[trigger] s[i])
}

fn colapsar_exec(s: &Vec<char>) -> (r: Vec<char>)
    ensures
        r@ == colapsar(s@),
{
    let mut r: Vec<char> = Vec::new();
    let mut i: usize = 0;
    while i < s.len()
        invariant
            i <= s.len(),
            r@ == colapsar(s@.take(i as int)),
        decreases s.len() - i,
    {
        let c = s[i];
        proof {
            assert(s@.take(i + 1).drop_last() =~= s@.take(i as int));
        }
        if !espacio(c) {
            if i > 0 && espacio(s[i - 1]) && r.len() > 0 {
                r.push(' ');
            }
            r.push(c);
        }
        i = i + 1;
    }
    assert(s@.take(s.len() as int) =~= s@);
    r
}

fn sin_espacios_exec(s: &Vec<char>) -> (r: Vec<char>)
    ensures
        r@ == sin_espacios(s@),
{
    let mut r: Vec<char> = Vec::new();
    let mut i: usize = 0;
    while i < s.len()
        invariant
            i <= s.len(),
            r@ == sin_espacios(s@.take(i as int)),
        decreases s.len() - i,
    {
        let c = s[i];
        proof {
            assert(s@.take(i + 1).drop_last() =~= s@.take(i as int));
        }
        if !espacio(c) {
            r.push(c);
        }
        i = i + 1;
    }
    assert(s@.take(s.len() as int) =~= s@);
    r
}

fn sin_crlf_exec(s: &Vec<char>) -> (a: Vec<char>)
    ensures
        a@ == sin_crlf_hasta(s@, s@.len() as int),
{
    let mut a: Vec<char> = Vec::new();
    let mut i: usize = 0;
    while i < s.len()
        invariant
            i <= s.len(),
            a@ == sin_crlf_hasta(s@, i as int),
        decreases s.len() - i,
    {
        let c = s[i];
        if !(c == '\r' && i + 1 < s.len() && s[i + 1] == '\n') {
            a.push(c);
        }
        i = i + 1;
    }
    a
}

/// Largo de `a` sin los saltos de línea finales.
fn fin_sin_saltos(a: &Vec<char>) -> (fin: usize)
    ensures
        fin <= a.len(),
        sin_saltos_finales(a@) == a@.take(fin as int),
{
    let mut fin: usize = a.len();
    assert(a@.take(a.len() as int) =~= a@);
    while fin > 0 && a[fin - 1] == '\n'
        invariant
            fin <= a.len(),
            sin_saltos_finales(a@.take(fin as int)) == sin_saltos_finales(a@),
        decreases fin,
    {
        assert(a@.take(fin as int).drop_last() =~= a@.take(fin - 1));
        fin = fin - 1;
    }
    fin
}

fn simplificar_espacios(a: &Vec<char>, fin: usize) -> (r: Vec<char>)
    requires
        fin <= a.len(),
    ensures
        r@ == espacios_simples(a@.take(fin as int)),
{
    let mut r: Vec<char> = Vec::new();
    let mut j: usize = 0;
    while j < fin
        invariant
            j <= fin <= a.len(),
            r@ == espacios_simples(a@.take(j as int)),
        decreases fin - j,
    {
        let c = a[j];
        if espacio(c) {
            r.push(' ');
        } else {
            r.push(c);
        }
        proof {
            assert(a@.take(j + 1) =~= a@.take(j as int).push(c));
        }
        j = j + 1;
        assert(r@ =~= espacios_simples(a@.take(j as int)));
    }
    r
}

fn todos_exec(s: &Vec<char>) -> (r: Vec<char>)
    ensures
        r@ == espacios_simples(sin_saltos_finales(sin_crlf_hasta(s@, s@.len() as int))),
{
    let a = sin_crlf_exec(s);
    let fin = fin_sin_saltos(&a);
    simplificar_espacios(&a, fin)
}

/// Texto tal como se escribirá en las celdas (sin el separador de repetición).
pub fn limpiar(texto: &Vec<char>, espacios: Espacios) -> (r: Vec<char>)
    ensures
        r@ == limpio(texto@, espacios),
{
    match espacios {
        Espacios::Normal => colapsar_exec(texto),
        Espacios::Sin => sin_espacios_exec(texto),
        Espacios::Todos => todos_exec(texto),
    }
}

/// ¿Es todo espacio en blanco? (`texto.trim().is_empty()`)
pub fn todo_blanco(texto: &Vec<char>) -> (r: bool)
    ensures
        r == en_blanco(texto@),
{
    let mut i: usize = 0;
    while i < texto.len()
        invariant
            i <= texto.len(),
            forall|k: int| 0 <= k < i ==> es_espacio(#[trigger] texto@[k]),
        decreases texto.len() - i,
    {
        if !espacio(texto[i]) {
            return false;
        }
        i = i + 1;
    }
    true
}

} // verus!

verus! {

/// Los grafemas extendidos (UAX #29) en que `unicode_segmentation` parte un
/// texto.
pub uninterp spec fn grafemas_de(s: Seq<char>) -> Seq<Seq<char>>;

/// Los caracteres de cada grafema de una secuencia de grafemas.
pub open spec fn vista(g: Seq<Vec<char>>) -> Seq<Seq<char>> {
    g.map_values(|v: Vec<char>| v@)
}

/// Parte `s` en grafemas extendidos con `UnicodeSegmentation::graphemes(true)`.
///
/// Lo que se confía del crate: el resultado es `grafemas_de(s)`; los grafemas
/// son trozos consecutivos y no vacíos del texto, así que unidos en orden
/// dan `s` (el iterador corta en fronteras crecientes desde el principio
/// hasta el final). Dónde caen las fronteras no se dice.
#[verifier::external_body]
pub(crate) fn grafemas(s: &[char]) -> (r: Vec<Vec<char>>)
    ensures
        vista(r@) == grafemas_de(s@),
        vista(r@).flatten() == s@,
        forall|k: int| 0 <= k < r@.len() ==> (#[trigger] r@[k])@.len() > 0,
{
    let texto: String = s.iter().collect();
    texto.graphemes(true).map(|g| g.chars().collect()).collect()
}

/// Todo espacio en blanco de `s` es un `' '` (no hay saltos de línea,
/// tabuladores ni otros espacios).
pub open spec fn solo_espacio_simple(s: Seq<char>) -> bool {
    forall|i: int| 0 <= i < s.len() && es_espacio(#[trigger] s[i]) ==> s[i] == ' '
}

proof fn lema_colapsar(s: Seq<char>)
    ensures
        solo_espacio_simple(colapsar(s)),
        !en_blanco(s) ==> colapsar(s).len() > 0,
        en_blanco(s) ==> colapsar(s).len() == 0,
    decreases s.len(),
{
    if s.len() > 0 {
        lema_colapsar(s.drop_last());
        if !en_blanco(s) && en_blanco(s.drop_last()) {
            let i = choose|i: int| 0 <= i < s.len() && !es_espacio(s[i]);
            if i < s.len() - 1 {
                assert(s.drop_last()[i] == s[i]);
            }
        }
        if en_blanco(s) {
            assert(es_espacio(s[s.len() - 1]));
            assert forall|i: int| 0 <= i < s.drop_last().len() implies es_espacio(
                #[trigger] s.drop_last()[i],
            ) by {
                assert(s.drop_last()[i] == s[i]);
            }
        }
        if !en_blanco(s.drop_last()) {
            let i = choose|i: int| 0 <= i < s.drop_last().len() && !es_espacio(s.drop_last()[i]);
            assert(s[i] == s.drop_last()[i]);
        }
    }
}

proof fn lema_sin_espacios(s: Seq<char>)
    ensures
        forall|i: int| 0 <= i < sin_espacios(s).len() ==> !es_espacio(#[trigger] sin_espacios(s)[i]),
        !en_blanco(s) ==> sin_espacios(s).len() > 0,
    decreases s.len(),
{
    if s.len() > 0 {
        lema_sin_espacios(s.drop_last());
        if !en_blanco(s) {
            let i = choose|i: int| 0 <= i < s.len() && !es_espacio(s[i]);
            if i < s.len() - 1 {
                assert(s.drop_last()[i] == s[i]);
            }
        }
    }
}

proof fn lema_sin_crlf(s: Seq<char>, i: int)
    requires
        0 <= i <= s.len(),
        exists|k: int| 0 <= k < i && !es_espacio(#[trigger] s[k]),
    ensures
        exists|k: int|
            0 <= k < sin_crlf_hasta(s, i).len() && !es_espacio(#[trigger] sin_crlf_hasta(s, i)[k]),
    decreases i,
{
    let k = choose|k: int| 0 <= k < i && !es_espacio(#[trigger] s[k]);
    let p = sin_crlf_hasta(s, i - 1);
    if k == i - 1 {
        assert(s[i - 1] != '\r');
        assert(sin_crlf_hasta(s, i) == p.push(s[i - 1]));
        assert(sin_crlf_hasta(s, i)[p.len() as int] == s[i - 1]);
    } else {
        lema_sin_crlf(s, i - 1);
        let j = choose|j: int| 0 <= j < p.len() && !es_espacio(#[trigger] p[j]);
        assert(sin_crlf_hasta(s, i)[j] == p[j]);
    }
}

proof fn lema_sin_saltos_finales(a: Seq<char>)
    ensures
        sin_saltos_finales(a).len() <= a.len(),
        forall|i: int| 0 <= i < sin_saltos_finales(a).len() ==> #[trigger] sin_saltos_finales(a)[i] == a[i],
        (exists|k: int| 0 <= k < a.len() && !es_espacio(#[trigger] a[k])) ==> sin_saltos_finales(a).len() > 0,
    decreases a.len(),
{
    if a.len() > 0 && a.last() == '\n' {
        lema_sin_saltos_finales(a.drop_last());
        if exists|k: int| 0 <= k < a.len() && !es_espacio(#[trigger] a[k]) {
            let k = choose|k: int| 0 <= k < a.len() && !es_espacio(#[trigger] a[k]);
            assert(k < a.len() - 1);
            assert(a.drop_last()[k] == a[k]);
        }
    }
}

/// El texto limpio no tiene más espacios que `' '` y, si el texto no estaba
/// en blanco, no queda vacío.
pub proof fn lema_limpio(s: Seq<char>, espacios: Espacios)
    ensures
        solo_espacio_simple(limpio(s, espacios)),
        !en_blanco(s) ==> limpio(s, espacios).len() > 0,
{
    match espacios {
        Espacios::Normal => lema_colapsar(s),
        Espacios::Sin => lema_sin_espacios(s),
        Espacios::Todos => {
            let a = sin_crlf_hasta(s, s.len() as int);
            if !en_blanco(s) {
                lema_sin_crlf(s, s.len() as int);
            }
            lema_sin_saltos_finales(a);
        },
    }
}

/// Un carácter de un grafema es un carácter del texto unido.
pub proof fn lema_caracter_de_grafema(g: Seq<Seq<char>>, k: int, j: int)
    requires
        0 <= k < g.len(),
        0 <= j < g[k].len(),
    ensures
        exists|i: int| 0 <= i < g.flatten().len() && g.flatten()[i] == g[k][j],
    decreases g.len(),
{
    if k == 0 {
        assert(g.flatten() == g.first() + g.drop_first().flatten());
        assert(g.flatten()[j] == g[k][j]);
    } else {
        lema_caracter_de_grafema(g.drop_first(), k - 1, j);
        let i = choose|i: int|
            0 <= i < g.drop_first().flatten().len() && g.drop_first().flatten()[i] == g[k][j];
        assert(g.flatten() == g.first() + g.drop_first().flatten());
        assert(g.flatten()[g.first().len() + i] == g[k][j]);
    }
}

/// Lo que se escribe en la celda `i` (contando desde el principio del
/// texto) con el ciclo de grafemas `g`: con repetición el ciclo se repite sin
/// fin; sin ella, tras el texto solo quedan espacios.
pub open spec fn grafema_de(g: Seq<Seq<char>>, repetir: bool, i: int) -> Seq<char> {
    if repetir {
        g[i % g.len() as int]
    } else if 0 <= i < g.len() {
        g[i]
    } else {
        seq![' ']
    }
}

/// El ciclo de grafemas de un texto: sus grafemas limpios y, si se repite
/// con espacios normales, un espacio que separa cada repetición.
pub open spec fn ciclo_de(texto: Seq<char>, espacios: Espacios, repetir: bool) -> Seq<Seq<char>> {
    if repetir && espacios == Espacios::Normal {
        grafemas_de(limpio(texto, espacios)).push(seq![' '])
    } else {
        grafemas_de(limpio(texto, espacios))
    }
}

/// El texto listo para escribirse: grafemas del ciclo (con el separador de
/// repetición si toca) y cuántos son del texto en sí.
pub struct Texto {
    pub grafemas: Vec<Vec<char>>,
    pub repetir: bool,
    /// Letras del texto sin el separador (lo que cuenta `ancho="auto"`).
    pub letras: usize,
}

impl Texto {
    /// Los grafemas del ciclo.
    pub open spec fn ciclo_spec(self) -> Seq<Seq<char>> {
        vista(self.grafemas@)
    }

    /// Lo que se escribe en la celda `i` (contando desde el principio del
    /// texto): con repetición el ciclo se repite sin fin; sin ella, tras el
    /// texto solo quedan espacios.
    pub open spec fn grafema(self, i: int) -> Seq<char> {
        grafema_de(self.ciclo_spec(), self.repetir, i)
    }

    /// El ciclo no está vacío, ningún grafema está vacío y ninguno lleva más
    /// espacio que `' '`.
    pub open spec fn bien_formado(self) -> bool {
        &&& 1 <= self.letras <= self.grafemas@.len()
        &&& forall|k: int|
            0 <= k < self.grafemas@.len() ==> (#[trigger] self.grafemas@[k])@.len() > 0
                && solo_espacio_simple(self.grafemas@[k]@)
    }

    pub fn nuevo(texto: &str, espacios: Espacios, repetir: bool) -> (r: Result<Texto, Error>)
        ensures
            en_blanco(texto@) ==> r == Err::<Texto, Error>(Error::TextoVacio),
            !en_blanco(texto@) ==> (r matches Ok(t) && {
                &&& t.bien_formado()
                &&& t.repetir == repetir
                &&& t.letras == grafemas_de(limpio(texto@, espacios)).len()
                &&& t.ciclo_spec() == ciclo_de(texto@, espacios, repetir)
            }),
    {
        let caracteres = caracteres(texto);
        if todo_blanco(&caracteres) {
            return Err(Error::TextoVacio);
        }
        let limpio_v = limpiar(&caracteres, espacios);
        let mut g = grafemas(limpio_v.as_slice());
        let letras = g.len();
        proof {
            lema_limpio(texto@, espacios);
            if letras == 0 {
                assert(vista(g@) =~= Seq::<Seq<char>>::empty());
            }
            assert forall|k: int| 0 <= k < g@.len() implies solo_espacio_simple(
                (#[trigger] g@[k])@,
            ) by {
                assert forall|j: int|
                    0 <= j < g@[k]@.len() && es_espacio(#[trigger] g@[k]@[j]) implies g@[k]@[j]
                    == ' ' by {
                    assert(vista(g@)[k] == g@[k]@);
                    lema_caracter_de_grafema(vista(g@), k, j);
                }
            }
        }
        if repetir && espacios == Espacios::Normal {
            let mut sep: Vec<char> = Vec::new();
            sep.push(' ');
            g.push(sep);
            proof {
                assert(vista(g@) =~= grafemas_de(limpio(texto@, espacios)).push(seq![' ']));
            }
        }
        Ok(Texto { grafemas: g, repetir, letras })
    }

    /// La posición `i` del texto reducida a lo que importa: con repetición, su
    /// resto en el ciclo; sin ella, tope en el largo del ciclo (de ahí en
    /// adelante todo son espacios).
    pub open spec fn reducido(self, i: int) -> int {
        let n = self.ciclo_spec().len() as int;
        if self.repetir {
            i % n
        } else if i < n {
            i
        } else {
            n
        }
    }

    /// Reducir no cambia lo que se escribe.
    pub proof fn lema_reducido(self, i: int)
        requires
            self.bien_formado(),
            0 <= i,
        ensures
            0 <= self.reducido(i) <= self.ciclo_spec().len(),
            self.grafema(self.reducido(i)) == self.grafema(i),
            self.reducido(i + 1) == self.siguiente_spec(self.reducido(i)),
    {
        let n = self.ciclo_spec().len() as int;
        if self.repetir {
            let a = i % n;
            vstd::arithmetic::div_mod::lemma_mod_bound(i, n);
            vstd::arithmetic::div_mod::lemma_small_mod(a as nat, n as nat);
            vstd::arithmetic::div_mod::lemma_add_mod_noop(i, 1, n);
            if n == 1 {
                vstd::arithmetic::div_mod::lemma_mod_bound(i + 1, n);
            } else {
                vstd::arithmetic::div_mod::lemma_small_mod(1, n as nat);
                if a + 1 < n {
                    vstd::arithmetic::div_mod::lemma_small_mod((a + 1) as nat, n as nat);
                } else {
                    vstd::arithmetic::div_mod::lemma_mod_self_0(n);
                }
            }
        }
    }

    /// La posición reducida que sigue a la reducida `j`.
    pub open spec fn siguiente_spec(self, j: int) -> int {
        let n = self.ciclo_spec().len() as int;
        if self.repetir {
            if j + 1 < n {
                j + 1
            } else {
                0
            }
        } else if j < n {
            j + 1
        } else {
            n
        }
    }

    /// Reduce la posición `i` del texto.
    pub fn reducir(&self, i: usize) -> (j: usize)
        requires
            self.bien_formado(),
        ensures
            j == self.reducido(i as int),
    {
        let n = self.grafemas.len();
        if self.repetir {
            i % n
        } else if i < n {
            i
        } else {
            n
        }
    }

    /// La posición reducida siguiente.
    pub fn siguiente(&self, j: usize) -> (r: usize)
        requires
            self.bien_formado(),
            j <= self.ciclo_spec().len(),
        ensures
            r == self.siguiente_spec(j as int),
            r <= self.ciclo_spec().len(),
    {
        let n = self.grafemas.len();
        if self.repetir {
            if j < n - 1 {
                j + 1
            } else {
                0
            }
        } else if j < n {
            j + 1
        } else {
            n
        }
    }

    /// Largo de un ciclo completo: tras tantas letras el texto se repite igual.
    pub fn ciclo(&self) -> (n: usize)
        ensures
            n == self.ciclo_spec().len(),
    {
        self.grafemas.len()
    }

    /// El grafema de la celda `i`; `None` es un espacio (más allá del texto,
    /// sin repetición).
    pub fn en(&self, i: usize) -> (r: Option<&Vec<char>>)
        requires
            self.bien_formado(),
        ensures
            r matches Some(g) ==> g@ == self.grafema(i as int),
            r is None ==> self.grafema(i as int) == seq![' '],
    {
        if self.repetir {
            Some(&self.grafemas[i % self.grafemas.len()])
        } else if i < self.grafemas.len() {
            Some(&self.grafemas[i])
        } else {
            None
        }
    }
}

/// Celdas que ocupa el texto una vez (grafemas, espacios incluidos).
pub fn contar_letras(texto: &str, espacios: Espacios) -> (n: usize)
    ensures
        n == grafemas_de(limpio(texto@, espacios)).len(),
{
    let caracteres = caracteres(texto);
    let limpio_v = limpiar(&caracteres, espacios);
    let g = grafemas(limpio_v.as_slice());
    assert(vista(g@).len() == g@.len());
    g.len()
}

} // verus!
