//! Orden lexicográfico de textos y de rutas.

use crate::ruta::{self, Ruta};
use crate::texto;
use vstd::prelude::*;
use vstd::string::*;

verus! {

/// ¿Va `a` estrictamente antes que `b` en el orden lexicográfico?
pub open spec fn antes_de<T>(a: Seq<T>, b: Seq<T>, menor: spec_fn(T, T) -> bool) -> bool
    decreases a.len(),
{
    if b.len() == 0 {
        false
    } else if a.len() == 0 {
        true
    } else if a[0] == b[0] {
        antes_de(a.drop_first(), b.drop_first(), menor)
    } else {
        menor(a[0], b[0])
    }
}

/// ¿Es un orden estricto en el que dos elementos distintos siempre se comparan?
pub open spec fn es_orden<T>(menor: spec_fn(T, T) -> bool) -> bool {
    &&& forall|x: T| !#[trigger] menor(x, x)
    &&& forall|x: T, y: T| #![trigger menor(x, y)] x != y ==> menor(x, y) || menor(y, x)
    &&& forall|x: T, y: T, z: T| #[trigger] menor(x, y) && #[trigger] menor(y, z) ==> menor(x, z)
}

/// El orden lexicográfico de un orden es un orden.
pub proof fn lemma_lexicografico<T>(a: Seq<T>, b: Seq<T>, c: Seq<T>, menor: spec_fn(T, T) -> bool)
    requires
        es_orden(menor),
    ensures
        !antes_de(a, a, menor),
        a != b ==> antes_de(a, b, menor) || antes_de(b, a, menor),
        antes_de(a, b, menor) && antes_de(b, c, menor) ==> antes_de(a, c, menor),
    decreases a.len(),
{
    if a.len() > 0 && b.len() > 0 && a != b && a[0] == b[0] {
        if a.drop_first() == b.drop_first() {
            assert(a =~= seq![a[0]] + a.drop_first());
            assert(b =~= seq![b[0]] + b.drop_first());
        }
    }
    if a.len() == 0 && b.len() == 0 {
        assert(a =~= b);
    }
    if a.len() > 0 {
        lemma_lexicografico(a.drop_first(), b.drop_first(), c.drop_first(), menor);
        assert(!menor(a[0], a[0]));
        if b.len() > 0 && a[0] != b[0] {
            assert(menor(a[0], b[0]) || menor(b[0], a[0]));
        }
    }
}

/// El orden de los caracteres: el de sus códigos.
pub open spec fn caracter_antes() -> spec_fn(char, char) -> bool {
    |x: char, y: char| x < y
}

/// ¿Va un texto antes que otro?
pub open spec fn texto_antes(a: Seq<char>, b: Seq<char>) -> bool {
    antes_de(a, b, caracter_antes())
}

/// El orden de los bytes.
pub open spec fn byte_antes() -> spec_fn(u8, u8) -> bool {
    |x: u8, y: u8| x < y
}

/// ¿Va un nombre antes que otro?
pub open spec fn nombre_antes() -> spec_fn(Seq<u8>, Seq<u8>) -> bool {
    |x: Seq<u8>, y: Seq<u8>| antes_de(x, y, byte_antes())
}

/// ¿Va una ruta antes que otra? Se comparan nombre a nombre.
pub open spec fn ruta_antes(a: Seq<Seq<u8>>, b: Seq<Seq<u8>>) -> bool {
    antes_de(a, b, nombre_antes())
}

/// El orden de los textos es un orden.
pub proof fn lemma_orden_de_textos(a: Seq<char>, b: Seq<char>, c: Seq<char>)
    ensures
        !texto_antes(a, a),
        a != b ==> texto_antes(a, b) || texto_antes(b, a),
        texto_antes(a, b) && texto_antes(b, c) ==> texto_antes(a, c),
{
    lemma_lexicografico(a, b, c, caracter_antes());
}

/// El orden de las rutas es un orden.
pub proof fn lemma_orden_de_rutas(a: Seq<Seq<u8>>, b: Seq<Seq<u8>>, c: Seq<Seq<u8>>)
    ensures
        !ruta_antes(a, a),
        a != b ==> ruta_antes(a, b) || ruta_antes(b, a),
        ruta_antes(a, b) && ruta_antes(b, c) ==> ruta_antes(a, c),
{
    assert(es_orden(nombre_antes())) by {
        assert forall|x: Seq<u8>| !#[trigger] nombre_antes()(x, x) by {
            lemma_lexicografico(x, x, x, byte_antes());
        }
        assert forall|x: Seq<u8>, y: Seq<u8>|
            #![trigger nombre_antes()(x, y)]
            x != y implies nombre_antes()(x, y) || nombre_antes()(y, x) by {
            lemma_lexicografico(x, y, y, byte_antes());
        }
        assert forall|x: Seq<u8>, y: Seq<u8>, z: Seq<u8>| #[trigger]
            nombre_antes()(x, y) && #[trigger] nombre_antes()(y, z) implies nombre_antes()(
            x,
            z,
        ) by {
            lemma_lexicografico(x, y, z, byte_antes());
        }
    }
    lemma_lexicografico(a, b, c, nombre_antes());
}

/// ¿Va un texto antes que otro?
pub fn va_antes(a: &str, b: &str) -> (r: bool)
    ensures
        r == texto_antes(a@, b@),
{
    let x = texto::caracteres(a);
    let y = texto::caracteres(b);
    let mut i: usize = 0;
    assert(x@.skip(0) =~= x@ && y@.skip(0) =~= y@);
    while i < x.len() && i < y.len()
        invariant
            i <= x@.len(),
            i <= y@.len(),
            x@ == a@,
            y@ == b@,
            texto_antes(x@, y@) == texto_antes(x@.skip(i as int), y@.skip(i as int)),
        decreases x.len() - i,
    {
        if x[i] != y[i] {
            return x[i] < y[i];
        }
        assert(x@.skip(i as int).drop_first() =~= x@.skip(i + 1));
        assert(y@.skip(i as int).drop_first() =~= y@.skip(i + 1));
        i += 1;
    }
    i < y.len()
}

/// ¿Va un nombre antes que otro?
fn nombre_va_antes(x: &Vec<u8>, y: &Vec<u8>) -> (r: bool)
    ensures
        r == antes_de(x@, y@, byte_antes()),
{
    let mut i: usize = 0;
    assert(x@.skip(0) =~= x@ && y@.skip(0) =~= y@);
    while i < x.len() && i < y.len()
        invariant
            i <= x@.len(),
            i <= y@.len(),
            antes_de(x@, y@, byte_antes()) == antes_de(
                x@.skip(i as int),
                y@.skip(i as int),
                byte_antes(),
            ),
        decreases x.len() - i,
    {
        if x[i] != y[i] {
            return x[i] < y[i];
        }
        assert(x@.skip(i as int).drop_first() =~= x@.skip(i + 1));
        assert(y@.skip(i as int).drop_first() =~= y@.skip(i + 1));
        i += 1;
    }
    i < y.len()
}

/// ¿Va una ruta antes que otra?
pub fn ruta_va_antes(a: &Ruta, b: &Ruta) -> (r: bool)
    ensures
        r == ruta_antes(a@, b@),
{
    let ghost x = a@;
    let ghost y = b@;
    let mut i: usize = 0;
    assert(x.skip(0) =~= x && y.skip(0) =~= y);
    while i < a.partes.len() && i < b.partes.len()
        invariant
            x == a@,
            y == b@,
            i <= x.len(),
            i <= y.len(),
            ruta_antes(x, y) == ruta_antes(x.skip(i as int), y.skip(i as int)),
        decreases a.partes.len() - i,
    {
        assert(x.skip(i as int)[0] == a.partes@[i as int]@);
        assert(y.skip(i as int)[0] == b.partes@[i as int]@);
        if !ruta::mismos_bytes(&a.partes[i], &b.partes[i]) {
            assert(nombre_antes()(a.partes@[i as int]@, b.partes@[i as int]@) == ruta_antes(x, y));
            return nombre_va_antes(&a.partes[i], &b.partes[i]);
        }
        assert(x.skip(i as int).drop_first() =~= x.skip(i + 1));
        assert(y.skip(i as int).drop_first() =~= y.skip(i + 1));
        i += 1;
    }
    i < b.partes.len()
}

/// Las vistas de unas rutas.
pub open spec fn rutas_vistas(rutas: Seq<Ruta>) -> Seq<Seq<Seq<u8>>> {
    rutas.map_values(|r: Ruta| r@)
}

/// ¿Están las rutas de menor a mayor?
pub open spec fn rutas_ordenadas(rutas: Seq<Seq<Seq<u8>>>) -> bool {
    forall|i: int, j: int|
        0 <= i < j < rutas.len() ==> !ruta_antes(#[trigger] rutas[j], #[trigger] rutas[i])
}

/// Inserta una ruta en su lugar.
fn insertar_ruta(rutas: &mut Vec<Ruta>, nueva: Ruta)
    requires
        rutas_ordenadas(rutas_vistas(old(rutas)@)),
    ensures
        rutas_ordenadas(rutas_vistas(final(rutas)@)),
        rutas_vistas(final(rutas)@).to_multiset() == rutas_vistas(old(rutas)@).to_multiset().insert(
            nueva@,
        ),
{
    let ghost vistas = rutas_vistas(rutas@);
    let ghost n = nueva@;
    let mut k: usize = rutas.len();
    while k > 0 && ruta_va_antes(&nueva, &rutas[k - 1])
        invariant
            k <= rutas@.len(),
            vistas == rutas_vistas(rutas@),
            n == nueva@,
            forall|j: int| k <= j < vistas.len() ==> ruta_antes(n, #[trigger] vistas[j]),
        decreases k,
    {
        k -= 1;
        assert(vistas[k as int] == rutas@[k as int]@);
    }
    assert(k > 0 ==> vistas[k - 1] == rutas@[k - 1]@);
    rutas.insert(k, nueva);
    assert(rutas_vistas(rutas@) =~= vistas.insert(k as int, n));
    proof {
        vistas.insert_ensures(k as int, n);
        vstd::seq_lib::to_multiset_insert(vistas, k as int, n);
        let nuevas = vistas.insert(k as int, n);
        assert forall|i: int, j: int| 0 <= i < j < nuevas.len() implies !ruta_antes(
            #[trigger] nuevas[j],
            #[trigger] nuevas[i],
        ) by {
            let a = if i < k {
                i
            } else {
                i - 1
            };
            let b = if j < k {
                j
            } else {
                j - 1
            };
            if i == k {
                assert(nuevas[j] == vistas[b]);
                lemma_orden_de_rutas(n, vistas[b], n);
            } else if j == k {
                assert(nuevas[i] == vistas[a]);
                if ruta_antes(n, vistas[a]) {
                    lemma_orden_de_rutas(n, vistas[a], vistas[k - 1]);
                    if a < k - 1 {
                        lemma_orden_de_rutas(vistas[a], vistas[k - 1], n);
                    }
                }
            } else {
                assert(nuevas[i] == vistas[a] && nuevas[j] == vistas[b]);
            }
        }
    }
}

/// Ordena unas rutas de menor a mayor.
pub fn ordenar_rutas(rutas: Vec<Ruta>) -> (r: Vec<Ruta>)
    ensures
        rutas_ordenadas(rutas_vistas(r@)),
        rutas_vistas(r@).to_multiset() == rutas_vistas(rutas@).to_multiset(),
{
    let ghost vistas = rutas_vistas(rutas@);
    let mut r: Vec<Ruta> = Vec::new();
    assert(rutas_vistas(r@) =~= Seq::<Seq<Seq<u8>>>::empty());
    assert(vistas.take(0) =~= Seq::<Seq<Seq<u8>>>::empty());
    for i in 0..rutas.len()
        invariant
            vistas == rutas_vistas(rutas@),
            rutas_ordenadas(rutas_vistas(r@)),
            rutas_vistas(r@).to_multiset() == vistas.take(i as int).to_multiset(),
    {
        insertar_ruta(&mut r, rutas[i].clone());
        assert(vistas.take(i + 1) =~= vistas.take(i as int).push(vistas[i as int]));
        proof {
            vstd::seq_lib::to_multiset_build(vistas.take(i as int), vistas[i as int]);
        }
    }
    assert(vistas.take(vistas.len() as int) =~= vistas);
    r
}

/// El orden lexicográfico lo decide lo primero que cambia: lo que va delante y es
/// igual no cuenta, y lo que se acaba antes va antes.
pub proof fn ley_decide_lo_primero_que_cambia<T>(
    comun: Seq<T>,
    x: T,
    y: T,
    a: Seq<T>,
    b: Seq<T>,
    menor: spec_fn(T, T) -> bool,
)
    ensures
        antes_de(comun, comun.push(y) + b, menor),
        !antes_de(comun.push(x) + a, comun, menor),
        !antes_de(comun, comun, menor),
        x != y ==> (antes_de(comun.push(x) + a, comun.push(y) + b, menor) <==> menor(x, y)),
    decreases comun.len(),
{
    let p = comun.push(x) + a;
    let q = comun.push(y) + b;
    if comun.len() > 0 {
        let resto = comun.drop_first();
        ley_decide_lo_primero_que_cambia(resto, x, y, a, b, menor);
        assert(p.drop_first() =~= resto.push(x) + a);
        assert(q.drop_first() =~= resto.push(y) + b);
        assert(p[0] == comun[0] && q[0] == comun[0]);
    } else {
        assert(p[0] == x && q[0] == y);
    }
}

/// Los textos se ordenan por el primer carácter que cambia.
pub proof fn ley_orden_de_los_textos(
    comun: Seq<char>,
    x: char,
    y: char,
    a: Seq<char>,
    b: Seq<char>,
)
    ensures
        texto_antes(comun, comun.push(y) + b),
        !texto_antes(comun.push(x) + a, comun),
        !texto_antes(comun, comun),
        x < y ==> texto_antes(comun.push(x) + a, comun.push(y) + b),
        x > y ==> !texto_antes(comun.push(x) + a, comun.push(y) + b),
{
    ley_decide_lo_primero_que_cambia(comun, x, y, a, b, caracter_antes());
}

/// Las rutas se ordenan por el primer nombre que cambia, y los nombres por el primer
/// byte que cambia.
pub proof fn ley_orden_de_las_rutas(
    comun: Seq<Seq<u8>>,
    a: Seq<Seq<u8>>,
    b: Seq<Seq<u8>>,
    nombre: Seq<u8>,
    x: u8,
    y: u8,
    c: Seq<u8>,
    d: Seq<u8>,
)
    ensures
        ruta_antes(comun, comun.push(nombre) + b),
        !ruta_antes(comun.push(nombre) + a, comun),
        !ruta_antes(comun, comun),
        ruta_antes(comun.push(nombre) + a, comun.push(nombre.push(y) + d) + b),
        !ruta_antes(comun.push(nombre.push(x) + c) + a, comun.push(nombre) + b),
        x < y ==> ruta_antes(
            comun.push(nombre.push(x) + c) + a,
            comun.push(nombre.push(y) + d) + b,
        ),
        x > y ==> !ruta_antes(
            comun.push(nombre.push(x) + c) + a,
            comun.push(nombre.push(y) + d) + b,
        ),
{
    let con_x = nombre.push(x) + c;
    let con_y = nombre.push(y) + d;
    let n = nombre.len() as int;
    ley_decide_lo_primero_que_cambia(nombre, x, y, c, d, byte_antes());
    ley_decide_lo_primero_que_cambia(comun, nombre, nombre, a, b, nombre_antes());
    ley_decide_lo_primero_que_cambia(comun, nombre, con_y, a, b, nombre_antes());
    ley_decide_lo_primero_que_cambia(comun, con_x, nombre, a, b, nombre_antes());
    ley_decide_lo_primero_que_cambia(comun, con_x, con_y, a, b, nombre_antes());
    assert(con_x.len() > n && con_y.len() > n);
    assert(con_x[n] == x && con_y[n] == y);
}

/// Unas rutas se ven una a una, en su orden; y están ordenadas justo cuando ninguna va
/// antes que otra que la precede.
pub proof fn ley_que_es_estar_ordenadas(rutas: Seq<Ruta>, i: int, j: int)
    ensures
        rutas_vistas(rutas).len() == rutas.len(),
        0 <= i < rutas.len() ==> rutas_vistas(rutas)[i] == rutas[i]@,
        rutas_ordenadas(rutas_vistas(rutas)) && 0 <= i < j < rutas.len() ==> !ruta_antes(
            rutas[j]@,
            rutas[i]@,
        ),
{
    let vistas = rutas_vistas(rutas);
    assert(0 <= i < j < rutas.len() ==> vistas[i] == rutas[i]@ && vistas[j] == rutas[j]@);
}

} // verus!
