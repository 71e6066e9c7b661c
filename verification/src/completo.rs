//! Leyes del dibujo entero: sin repetir y con sitio para todos sus
//! grafemas, el dibujo lleva el texto completo y en orden; una rejilla
//! tiene figura justo cuando le cabe alguna letra; y el análisis cuenta su
//! capacidad y su plantilla es el dibujo.

use vstd::prelude::*;

use crate::analisis::{
    cuenta_rejilla, es_analisis, lema_cuantos_linea_plantilla, lema_lineas_plantilla_largo,
    ley_plantilla_es_dibujo, linea_plantilla, lineas_plantilla, maximo, minimo, suma, sustituir,
    tramos_filas, Analisis,
};
use crate::animacion::{lema_partes_no_vacio, partes, renglones};
use crate::composicion::{
    celda, celdas, cuantos, cuenta, desde, dibujo, es_recorte, fila, hay_figura,
    lema_recorte_unico, lema_unir_push, letras_antes, lineas, unir,
};
use crate::texto::{es_espacio, grafema_de, sin_espacio_final};

verus! {

/// `s` sin sus espacios en blanco (espacios, saltos de línea y demás).
pub open spec fn sin_blancos(s: Seq<char>) -> Seq<char>
    decreases s.len(),
{
    if s.len() == 0 {
        seq![]
    } else if es_espacio(s.last()) {
        sin_blancos(s.drop_last())
    } else {
        sin_blancos(s.drop_last()).push(s.last())
    }
}

/// Los grafemas `inicio..inicio + n` del texto sin repetir, uno tras otro
/// (un espacio por cada uno que pase del final).
pub open spec fn escritos(g: Seq<Seq<char>>, inicio: int, n: int) -> Seq<char>
    decreases n,
{
    if n <= 0 {
        seq![]
    } else {
        escritos(g, inicio, n - 1) + grafema_de(g, false, inicio + n - 1)
    }
}

/// Un espacio en blanco solo no deja nada.
proof fn lema_blanco(c: char)
    requires
        c == ' ' || c == '\n',
    ensures
        sin_blancos(seq![c]) == Seq::<char>::empty(),
{
    assert(es_espacio(c));
    assert(seq![c].last() == c);
    assert(seq![c].drop_last() =~= Seq::<char>::empty());
    assert(sin_blancos(seq![c].drop_last()) =~= Seq::<char>::empty());
}

proof fn lema_sin_blancos_concat(a: Seq<char>, b: Seq<char>)
    ensures
        sin_blancos(a + b) == sin_blancos(a) + sin_blancos(b),
    decreases b.len(),
{
    if b.len() == 0 {
        assert(a + b =~= a);
        assert(sin_blancos(b) =~= Seq::<char>::empty());
        assert(sin_blancos(a) + sin_blancos(b) =~= sin_blancos(a));
    } else {
        lema_sin_blancos_concat(a, b.drop_last());
        assert((a + b).drop_last() =~= a + b.drop_last());
        assert((a + b).last() == b.last());
        if !es_espacio(b.last()) {
            assert(sin_blancos(a) + sin_blancos(b.drop_last()).push(b.last()) =~= (sin_blancos(a)
                + sin_blancos(b.drop_last())).push(b.last()));
        }
    }
}

proof fn lema_sin_espacio_final(s: Seq<char>)
    ensures
        sin_blancos(sin_espacio_final(s)) == sin_blancos(s),
    decreases s.len(),
{
    if s.len() > 0 && es_espacio(s.last()) {
        lema_sin_espacio_final(s.drop_last());
    }
}

proof fn lema_escritos_concat(g: Seq<Seq<char>>, inicio: int, a: int, b: int)
    requires
        0 <= a,
        0 <= b,
    ensures
        escritos(g, inicio, a + b) == escritos(g, inicio, a) + escritos(g, inicio + a, b),
    decreases b,
{
    if b == 0 {
        assert(escritos(g, inicio, a) + escritos(g, inicio + a, b) =~= escritos(g, inicio, a));
    } else {
        lema_escritos_concat(g, inicio, a, b - 1);
        assert(inicio + (a + b) - 1 == (inicio + a) + b - 1);
        assert(escritos(g, inicio, a) + escritos(g, inicio + a, b - 1) + grafema_de(
            g,
            false,
            inicio + a + b - 1,
        ) =~= escritos(g, inicio, a) + (escritos(g, inicio + a, b - 1) + grafema_de(
            g,
            false,
            inicio + a + b - 1,
        )));
    }
}

/// Pasado el final del texto solo se escriben espacios.
proof fn lema_escritos_pasado_el_final(g: Seq<Seq<char>>, inicio: int, n: int)
    requires
        inicio >= g.len(),
    ensures
        sin_blancos(escritos(g, inicio, n)) == Seq::<char>::empty(),
    decreases n,
{
    if n > 0 {
        lema_escritos_pasado_el_final(g, inicio, n - 1);
        lema_sin_blancos_concat(escritos(g, inicio, n - 1), seq![' ']);
        lema_blanco(' ');
    }
}

/// Los primeros `k` grafemas del texto, uno tras otro.
proof fn lema_escritos_principio(g: Seq<Seq<char>>, k: int)
    requires
        0 <= k <= g.len(),
    ensures
        escritos(g, 0, k) == g.take(k).flatten(),
    decreases k,
{
    if k > 0 {
        lema_escritos_principio(g, k - 1);
        assert(g.take(k) =~= g.take(k - 1).push(g[k - 1]));
        g.take(k - 1).lemma_flatten_push(g[k - 1]);
    } else {
        assert(g.take(0) =~= Seq::<Seq<char>>::empty());
    }
}

/// Cada celda de figura de una fila recibe el grafema siguiente; las demás,
/// un espacio.
proof fn lema_celdas(c: Seq<bool>, inicio: int, g: Seq<Seq<char>>)
    ensures
        sin_blancos(celdas(c, inicio, g, false)) == sin_blancos(escritos(g, inicio, cuenta(c) as int)),
    decreases c.len(),
{
    if c.len() > 0 {
        let previas = c.drop_last();
        lema_celdas(previas, inicio, g);
        if c.last() {
            lema_sin_blancos_concat(
                celdas(previas, inicio, g, false),
                grafema_de(g, false, inicio + cuenta(previas)),
            );
            lema_sin_blancos_concat(
                escritos(g, inicio, cuenta(previas) as int),
                grafema_de(g, false, inicio + cuenta(previas)),
            );
        } else {
            lema_sin_blancos_concat(celdas(previas, inicio, g, false), seq![' ']);
            lema_blanco(' ');
            assert(sin_blancos(celdas(previas, inicio, g, false)) + Seq::<char>::empty()
                =~= sin_blancos(celdas(previas, inicio, g, false)));
        }
    }
}

/// Las líneas de las filas `p..y`, leídas sin espacios en blanco, son los
/// grafemas que llevan sus celdas de figura.
proof fn lema_lineas(r: Seq<Seq<bool>>, p: int, y: int, m: int, g: Seq<Seq<char>>)
    requires
        p <= y,
    ensures
        sin_blancos(unir(lineas(r, p, y, m, 0, g, false))) == sin_blancos(
            escritos(g, 0, letras_antes(r, p, y, m) as int),
        ),
    decreases y - p,
{
    if y > p {
        lema_lineas(r, p, y - 1, m, g);
        let ls = lineas(r, p, y - 1, m, 0, g, false);
        let antes = letras_antes(r, p, y - 1, m) as int;
        let c = desde(fila(r, y - 1), m);
        let l = sin_espacio_final(celdas(c, antes, g, false));
        lema_unir_push(ls, l);
        lema_sin_espacio_final(celdas(c, antes, g, false));
        lema_celdas(c, antes, g);
        lema_escritos_concat(g, 0, antes, cuenta(c) as int);
        lema_sin_blancos_concat(escritos(g, 0, antes), escritos(g, antes, cuenta(c) as int));
        if ls.len() == 0 {
            assert(sin_blancos(unir(ls)) =~= Seq::<char>::empty());
            assert(sin_blancos(escritos(g, 0, antes)) =~= Seq::<char>::empty());
        } else {
            lema_sin_blancos_concat(unir(ls) + seq!['\n'], l);
            lema_sin_blancos_concat(unir(ls), seq!['\n']);
            lema_blanco('\n');
            assert(sin_blancos(unir(ls)) + Seq::<char>::empty() =~= sin_blancos(unir(ls)));
        }
    }
}

/// Celdas de figura de una fila sin ninguna antes del margen `m`.
proof fn lema_cuenta_desde(f: Seq<bool>, m: int)
    requires
        0 <= m,
        forall|x: int| 0 <= x < f.len() && f[x] ==> m <= x,
    ensures
        cuenta(desde(f, m)) == cuenta(f),
    decreases f.len(),
{
    if f.len() > 0 {
        if f.len() <= m {
            lema_cuenta_vacia(f);
            assert(desde(f, m).len() == 0);
        } else {
            lema_cuenta_desde(f.drop_last(), m);
            assert(desde(f, m).drop_last() =~= desde(f.drop_last(), m));
            assert(desde(f, m).last() == f.last());
        }
    }
}

/// Una fila sin celdas de figura no cuenta ninguna.
proof fn lema_cuenta_vacia(f: Seq<bool>)
    requires
        forall|x: int| 0 <= x < f.len() ==> !f[x],
    ensures
        cuenta(f) == 0,
    decreases f.len(),
{
    if f.len() > 0 {
        lema_cuenta_vacia(f.drop_last());
    }
}

/// Con el recorte de la rejilla, las filas `p..=u` desde el margen `m`
/// tienen todas sus celdas de figura.
proof fn lema_letras_del_recorte(r: Seq<Seq<bool>>, p: int, u: int, m: int, y: int)
    requires
        es_recorte(seq![r], p, u, m),
        0 <= y <= r.len(),
    ensures
        y <= p ==> cuenta_rejilla(r.take(y)) == 0,
        p <= y <= u + 1 ==> cuenta_rejilla(r.take(y)) == letras_antes(r, p, y, m),
        u + 1 <= y ==> cuenta_rejilla(r.take(y)) == letras_antes(r, p, u + 1, m),
    decreases y,
{
    let rs = seq![r];
    assert(rs[0] == r);
    if y > 0 {
        lema_letras_del_recorte(r, p, u, m, y - 1);
        assert(r.take(y).drop_last() =~= r.take(y - 1));
        assert(r.take(y).last() == r[y - 1]);
        let f = r[y - 1];
        if y - 1 < p || y - 1 > u {
            assert forall|x: int| 0 <= x < f.len() implies !f[x] by {
                if f[x] {
                    assert(celda(rs, 0, y - 1, x));
                }
            }
            lema_cuenta_vacia(f);
        } else {
            assert forall|x: int| 0 <= x < f.len() && f[x] implies m <= x by {
                assert(celda(rs, 0, y - 1, x));
            }
            assert(0 <= m) by {
                let (k1, y1) = choose|k: int, yy: int| celda(rs, k, yy, m);
                assert(celda(rs, k1, y1, m));
            }
            lema_cuenta_desde(f, m);
            assert(fila(r, y - 1) == f);
        }
    } else {
        assert(r.take(0) =~= Seq::<Seq<bool>>::empty());
    }
}

/// Ley del texto completo: sin repetir, en una rejilla con sitio para todos
/// los grafemas del texto, el dibujo recortado lleva el texto entero y en
/// orden; quitando a los dos sus espacios en blanco, son iguales.
pub proof fn ley_texto_completo(r: Seq<Seq<bool>>, p: int, u: int, m: int, g: Seq<Seq<char>>)
    requires
        es_recorte(seq![r], p, u, m),
        g.len() <= cuenta_rejilla(r),
    ensures
        sin_blancos(dibujo(r, p, u, m, 0, g, false)) == sin_blancos(g.flatten()),
{
    let rs = seq![r];
    assert(rs[0] == r);
    let (k1, x1) = choose|k: int, x: int| celda(rs, k, p, x);
    assert(celda(rs, k1, p, x1));
    let (k2, x2) = choose|k: int, x: int| celda(rs, k, u, x);
    assert(celda(rs, k2, u, x2));
    lema_letras_del_recorte(r, p, u, m, r.len() as int);
    assert(r.take(r.len() as int) =~= r);
    let total = letras_antes(r, p, u + 1, m) as int;
    lema_lineas(r, p, u + 1, m, g);
    lema_escritos_concat(g, 0, g.len() as int, total - g.len());
    lema_escritos_pasado_el_final(g, g.len() as int, total - g.len());
    lema_sin_blancos_concat(escritos(g, 0, g.len() as int), escritos(g, g.len() as int, total - g.len()));
    lema_escritos_principio(g, g.len() as int);
    assert(g.take(g.len() as int) =~= g);
    assert(sin_blancos(escritos(g, 0, g.len() as int)) + Seq::<char>::empty() =~= sin_blancos(
        escritos(g, 0, g.len() as int),
    ));
}

/// Hay figura si y solo si hay alguna celda que contar.
proof fn lema_cuenta_positiva(f: Seq<bool>)
    ensures
        cuenta(f) > 0 <==> exists|x: int| 0 <= x < f.len() && f[x],
    decreases f.len(),
{
    if f.len() > 0 {
        lema_cuenta_positiva(f.drop_last());
        if f.last() {
            assert(f[f.len() - 1]);
        }
        if exists|x: int| 0 <= x < f.len() - 1 && f.drop_last()[x] {
            let x = choose|x: int| 0 <= x < f.len() - 1 && f.drop_last()[x];
            assert(f[x]);
        }
        if exists|x: int| 0 <= x < f.len() && f[x] {
            let x = choose|x: int| 0 <= x < f.len() && f[x];
            if x < f.len() - 1 {
                assert(f.drop_last()[x]);
            }
        }
    }
}

/// Ley de la capacidad: una rejilla tiene figura si y solo si le cabe
/// alguna letra (así que analizarla da `SiluetaVacia` justo cuando su
/// capacidad es 0).
pub proof fn ley_figura_capacidad(r: Seq<Seq<bool>>)
    ensures
        hay_figura(seq![r]) <==> cuenta_rejilla(r) > 0,
    decreases r.len(),
{
    let rs = seq![r];
    assert(rs[0] == r);
    if r.len() > 0 {
        let d = r.drop_last();
        ley_figura_capacidad(d);
        lema_cuenta_positiva(r.last());
        let ds = seq![d];
        assert(ds[0] == d);
        if hay_figura(rs) {
            let (k, y, x) = choose|k: int, y: int, x: int| celda(rs, k, y, x);
            if y < r.len() - 1 {
                assert(celda(ds, 0, y, x));
            } else {
                assert(r.last()[x]);
            }
        }
        if cuenta_rejilla(r) > 0 {
            if cuenta_rejilla(d) > 0 {
                let (k, y, x) = choose|k: int, y: int, x: int| celda(ds, k, y, x);
                assert(celda(rs, 0, y, x));
            } else {
                let x = choose|x: int| 0 <= x < r.last().len() && r.last()[x];
                assert(celda(rs, 0, r.len() - 1, x));
            }
        }
    } else {
        if hay_figura(rs) {
            let (k, y, x) = choose|k: int, y: int, x: int| celda(rs, k, y, x);
        }
    }
}

/// Las letras por fila de un análisis suman las de las filas `p..p + k`.
proof fn lema_suma_por_fila(a: Analisis, r: Seq<Seq<bool>>, n: usize, p: int, u: int, m: int, k: int)
    requires
        es_analisis(a, r, n),
        es_recorte(seq![r], p, u, m),
        0 <= k <= u - p + 1,
    ensures
        suma(a.por_fila@.take(k)) == letras_antes(r, p, p + k, m),
    decreases k,
{
    lema_recorte_unico(seq![r], p, u, m);
    let rs = seq![r];
    assert(rs[0] == r);
    if k > 0 {
        lema_suma_por_fila(a, r, n, p, u, m, k - 1);
        assert(a.por_fila@.take(k).drop_last() =~= a.por_fila@.take(k - 1));
        let y = p + k - 1;
        let (k1, x1) = choose|kk: int, x: int| celda(rs, kk, u, x);
        assert(celda(rs, k1, u, x1));
        assert(0 <= y < r.len());
        assert(a.por_fila@[k - 1] == cuenta(r[p + (k - 1)]));
        assert forall|x: int| 0 <= x < r[y].len() && r[y][x] implies m <= x by {
            assert(celda(rs, 0, y, x));
        }
        let (k2, y2) = choose|kk: int, yy: int| celda(rs, kk, yy, m);
        assert(celda(rs, k2, y2, m));
        lema_cuenta_desde(r[y], m);
        assert(fila(r, y) == r[y]);
    } else {
        assert(a.por_fila@.take(0) =~= Seq::<usize>::empty());
    }
}

/// Ley del análisis: en la rejilla con recorte `p..=u` y margen `m`, el
/// análisis cuenta como letras exactamente su capacidad (las celdas de
/// figura de toda la rejilla), y su plantilla, con un carácter `c` que no es
/// espacio en cada `#`, es el dibujo de un texto de `a.letras` grafemas `c`
/// escrito sin repetir: la plantilla coincide celda por celda con el
/// dibujo.
pub proof fn ley_analisis(a: Analisis, r: Seq<Seq<bool>>, n: usize, p: int, u: int, m: int, g: Seq<Seq<char>>, c: char)
    requires
        es_analisis(a, r, n),
        es_recorte(seq![r], p, u, m),
        !es_espacio(c),
        g.len() == a.letras,
        forall|i: int| 0 <= i < g.len() ==> #[trigger] g[i] == seq![c],
    ensures
        a.letras == cuenta_rejilla(r),
        a.por_fila@.len() == a.filas,
        dibujo(r, p, u, m, 0, g, false) == sustituir(a.plantilla@, c),
{
    lema_recorte_unico(seq![r], p, u, m);
    let rs = seq![r];
    assert(rs[0] == r);
    let (k1, x1) = choose|kk: int, x: int| celda(rs, kk, u, x);
    assert(celda(rs, k1, u, x1));
    let (k0, x0) = choose|kk: int, x: int| celda(rs, kk, p, x);
    assert(celda(rs, k0, p, x0));
    lema_suma_por_fila(a, r, n, p, u, m, u - p + 1);
    assert(a.por_fila@.take(u - p + 1) =~= a.por_fila@);
    lema_letras_del_recorte(r, p, u, m, r.len() as int);
    assert(r.take(r.len() as int) =~= r);
    assert forall|i: int| 0 <= i < letras_antes(r, p, u + 1, m) implies grafema_de(g, false, i)
        == seq![c] by {
        assert(g[i] == seq![c]);
    }
    ley_plantilla_es_dibujo(r, p, u, m, 0, g, false, c);
}

/// El menor de una secuencia nunca pasa del mayor.
proof fn lema_minimo_maximo(s: Seq<nat>)
    ensures
        minimo(s) <= maximo(s),
    decreases s.len(),
{
    if s.len() >= 2 {
        lema_minimo_maximo(s.drop_last());
    }
}

/// Sin saltos de línea cuenta cero.
proof fn lema_sin_salto(s: Seq<char>)
    requires
        cuantos(s, '\n') == 0,
    ensures
        forall|i: int| 0 <= i < s.len() ==> s[i] != '\n',
    decreases s.len(),
{
    if s.len() > 0 {
        lema_sin_salto(s.drop_last());
        assert forall|i: int| 0 <= i < s.len() implies s[i] != '\n' by {
            if i < s.len() - 1 {
                assert(s.drop_last()[i] == s[i]);
            }
        }
    }
}

/// Añadir texto sin saltos alarga la última línea.
proof fn lema_partes_sin_salto(x: Seq<char>, b: Seq<char>)
    requires
        forall|i: int| 0 <= i < b.len() ==> b[i] != '\n',
    ensures
        partes(x + b) == partes(x).update(partes(x).len() - 1, partes(x).last() + b),
    decreases b.len(),
{
    lema_partes_no_vacio(x);
    if b.len() == 0 {
        assert(x + b =~= x);
        assert(partes(x).last() + b =~= partes(x).last());
        assert(partes(x).update(partes(x).len() - 1, partes(x).last()) =~= partes(x));
    } else {
        let d = b.drop_last();
        lema_partes_sin_salto(x, d);
        assert((x + b).drop_last() =~= x + d);
        assert((x + b).last() == b.last());
        assert(b.last() == b[b.len() - 1]);
        let t = partes(x + d);
        lema_partes_no_vacio(x + d);
        assert(partes(x).last() + d + seq![b.last()] =~= partes(x).last() + b);
        assert(t.len() == partes(x).len());
        assert(t.last() == partes(x).last() + d);
        assert((partes(x).last() + d).push(b.last()) =~= partes(x).last() + b);
        assert(t.update(t.len() - 1, t.last().push(b.last())) =~= partes(x).update(
            partes(x).len() - 1,
            partes(x).last() + b,
        ));
    }
}

/// Partir por los saltos unas líneas unidas con saltos devuelve las líneas.
proof fn lema_partes_de_unir(ls: Seq<Seq<char>>)
    requires
        ls.len() >= 1,
        forall|k: int, i: int| 0 <= k < ls.len() && 0 <= i < ls[k].len() ==> #[trigger] ls[k][i] != '\n',
    ensures
        partes(unir(ls)) == ls,
    decreases ls.len(),
{
    let l = ls.last();
    assert forall|i: int| 0 <= i < l.len() implies l[i] != '\n' by {
        assert(ls[ls.len() - 1][i] != '\n');
    }
    if ls.len() == 1 {
        lema_partes_sin_salto(Seq::<char>::empty(), l);
        assert(Seq::<char>::empty() + l =~= l);
        assert(partes(Seq::<char>::empty()) =~= seq![Seq::<char>::empty()]);
        assert(seq![Seq::<char>::empty()].update(0, Seq::<char>::empty() + l) =~= ls);
    } else {
        let d = ls.drop_last();
        lema_partes_de_unir(d);
        let x = unir(d) + seq!['\n'];
        assert(x.drop_last() =~= unir(d));
        assert(partes(x) == partes(unir(d)).push(Seq::<char>::empty()));
        lema_partes_sin_salto(x, l);
        assert(unir(ls) == x + l);
        assert(Seq::<char>::empty() + l =~= l);
        assert(d.push(Seq::<char>::empty()).update(d.len() as int, l) =~= ls);
    }
}

/// Lo que no es espacio sobrevive a quitar los espacios del final.
proof fn lema_sin_espacio_final_largo(s: Seq<char>, i: int)
    requires
        0 <= i < s.len(),
        !es_espacio(s[i]),
    ensures
        sin_espacio_final(s).len() > i,
    decreases s.len(),
{
    if s.len() > 0 && es_espacio(s.last()) {
        assert(i < s.len() - 1);
        lema_sin_espacio_final_largo(s.drop_last(), i);
    }
}

/// Ley de las filas del análisis: los tramos más corto y más largo están en
/// orden, y la plantilla tiene una línea por fila (contadas como las cuenta
/// `str::lines`).
pub proof fn ley_analisis_filas(a: Analisis, r: Seq<Seq<bool>>, n: usize, p: int, u: int, m: int)
    requires
        es_analisis(a, r, n),
        es_recorte(seq![r], p, u, m),
    ensures
        a.tramo_min <= a.tramo_max,
        renglones(a.plantilla@).len() == a.filas,
{
    lema_recorte_unico(seq![r], p, u, m);
    lema_minimo_maximo(tramos_filas(r, p, u + 1));
    let rs = seq![r];
    assert(rs[0] == r);
    let (k1, x1) = choose|kk: int, x: int| celda(rs, kk, u, x);
    assert(celda(rs, k1, u, x1));
    let (k0, x0) = choose|kk: int, x: int| celda(rs, kk, p, x);
    assert(celda(rs, k0, p, x0));
    let (k2, y2) = choose|kk: int, yy: int| celda(rs, kk, yy, m);
    assert(celda(rs, k2, y2, m));
    let ls = lineas_plantilla(r, p, u + 1, m);
    lema_lineas_plantilla_largo(r, p, u + 1, m);
    assert forall|k: int, i: int| 0 <= k < ls.len() && 0 <= i < ls[k].len() implies #[trigger] ls[k][i]
        != '\n' by {
        lema_linea_k(r, p, u + 1, m, k);
        lema_cuantos_linea_plantilla(desde(r[p + k], m));
        lema_sin_salto(ls[k]);
    }
    lema_partes_de_unir(ls);
    let ultima = desde(r[u], m);
    assert(ultima[x1 - m] == r[u][x1]);
    let marcas = ultima.map_values(|b: bool| if b { '#' } else { ' ' });
    assert(marcas[x1 - m] == '#');
    assert(!es_espacio('#'));
    lema_sin_espacio_final_largo(marcas, x1 - m);
    lema_linea_k(r, p, u + 1, m, u - p);
    assert(ls.last() == ls[u - p]);
    assert(renglones(a.plantilla@).len() == ls.len());
}

/// La línea `k` de la plantilla de las filas `p..y` es la de la fila `p + k`.
proof fn lema_linea_k(r: Seq<Seq<bool>>, p: int, y: int, m: int, k: int)
    requires
        p <= y,
        0 <= k < y - p,
    ensures
        lineas_plantilla(r, p, y, m)[k] == linea_plantilla(desde(r[p + k], m)),
    decreases y - p,
{
    lema_lineas_plantilla_largo(r, p, y - 1, m);
    if k < y - 1 - p {
        lema_linea_k(r, p, y - 1, m, k);
    }
}

/// Una fila de `n` celdas, todas de figura.
pub open spec fn fila_llena(n: nat) -> Seq<bool> {
    Seq::new(n, |i: int| true)
}

proof fn lema_fila_llena(g: Seq<Seq<char>>, n: nat)
    ensures
        cuenta(fila_llena(n)) == n,
        n >= g.len() ==> sin_espacio_final(celdas(fila_llena(n + 1), 0, g, false)) == sin_espacio_final(
            celdas(fila_llena(n), 0, g, false),
        ),
    decreases n,
{
    assert(fila_llena(n + 1).drop_last() =~= fila_llena(n));
    assert(fila_llena(n + 1).last());
    if n > 0 {
        lema_fila_llena(g, (n - 1) as nat);
        assert(fila_llena(n).drop_last() =~= fila_llena((n - 1) as nat));
        assert(fila_llena(n).last());
    } else {
        assert(fila_llena(0) =~= Seq::<bool>::empty());
    }
    if n >= g.len() {
        let x = celdas(fila_llena(n), 0, g, false);
        let y = celdas(fila_llena(n + 1), 0, g, false);
        assert(grafema_de(g, false, 0 + cuenta(fila_llena(n)) as int) == seq![' ']);
        assert(y == x + seq![' ']);
        assert(es_espacio(' '));
        assert(y.drop_last() =~= x);
        assert(y.last() == ' ');
    }
}

proof fn lema_dibujo_fila(g: Seq<Seq<char>>, n: nat)
    ensures
        dibujo(seq![fila_llena(n)], 0, 0, 0, 0, g, false) == sin_espacio_final(
            celdas(fila_llena(n), 0, g, false),
        ),
{
    let r = seq![fila_llena(n)];
    assert(fila(r, 0) == fila_llena(n));
    assert(desde(fila_llena(n), 0) =~= fila_llena(n));
    assert(letras_antes(r, 0, 0, 0) == 0);
    let ls = lineas(r, 0, 1, 0, 0, g, false);
    assert(lineas(r, 0, 0, 0, 0, g, false) =~= Seq::<Seq<char>>::empty());
    assert(ls.len() == 1);
}

/// Ley del ancho sobrante: sin repetir, en una fila de figura con sitio para
/// todos los grafemas del texto, ensancharla no cambia el dibujo (las celdas
/// de más reciben espacios que se recortan). Así, las letras que cuenta
/// `contar_letras` son las celdas que el dibujo llena.
pub proof fn ley_ancho_sobrante(g: Seq<Seq<char>>, n: nat, k: nat)
    requires
        g.len() <= n,
    ensures
        dibujo(seq![fila_llena(n + k)], 0, 0, 0, 0, g, false) == dibujo(
            seq![fila_llena(n)],
            0,
            0,
            0,
            0,
            g,
            false,
        ),
    decreases k,
{
    lema_dibujo_fila(g, n + k);
    lema_dibujo_fila(g, n);
    if k > 0 {
        ley_ancho_sobrante(g, n, (k - 1) as nat);
        lema_dibujo_fila(g, (n + k - 1) as nat);
        lema_fila_llena(g, (n + k - 1) as nat);
        assert((n + k - 1) as nat + 1 == n + k);
    }
}

} // verus!
