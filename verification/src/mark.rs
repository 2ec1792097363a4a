//! Fase **mark**: qué unidades sigue necesitando el build.
//!
//! Las unidades del workspace que corresponden a un target declarado anclan el
//! conjunto vivo, y el cierre por el grafo de fingerprints rescata sus
//! dependencias, por viejas que sean.

use crate::conjunto::{Conjunto, Miembros};
use crate::fecha::Instante;
use crate::fingerprint::{self, PerfilVista, Profile, UnidadVista, Unit};
use crate::texto;
use std::collections::HashMap;
use vstd::prelude::*;
use vstd::string::*;

verus! {

/// Un nombre con los guiones convertidos en guiones bajos.
pub open spec fn normalizado(s: Seq<char>) -> Seq<char> {
    texto::cambiado(s, '-', '_')
}

/// Cargo alterna guiones y guiones bajos según el contexto; para comparar
/// nombres hay que quedarse con una sola forma.
pub fn normalizar(s: &str) -> (r: String)
    ensures
        r@ == normalizado(s@),
{
    texto::cambiar(s, '-', '_')
}

/// ¿Es el nombre el de un target, o el de un target tras un tipo y un guion bajo?
pub open spec fn nombra_target(nombre: Seq<char>, target: Seq<char>) -> bool {
    nombre == target || texto::termina_en(nombre, seq!['_'] + target)
}

/// ¿Corresponde el stem a alguno de los targets declarados?
pub open spec fn vigente(stem: Seq<char>, targets: Set<Seq<char>>) -> bool {
    exists|t: Seq<char>| #[trigger] targets.contains(t) && nombra_target(normalizado(stem), t)
}

/// ¿El nombre de archivo de esta unidad corresponde a un target vigente?
///
/// Los stems son `<tipo>-<target>`: `lib-app_core`,
/// `test-integration-test-schema_lifecycle`, `build-script-build`. Basta con
/// comprobar que terminan en un target declarado.
pub fn stem_vigente(stem: &str, targets: &Conjunto) -> (r: bool)
    ensures
        r == vigente(stem@, targets@),
{
    let nombre = normalizar(stem);
    let v = texto::caracteres(nombre.as_str());
    let mut p: usize = 0;
    let ghost n = v@.len();
    while p <= v.len()
        invariant
            v@ == nombre@,
            nombre@ == normalizado(stem@),
            n == v@.len(),
            p <= n + 1,
            forall|q: int|
                0 <= q < p && (q == 0 || nombre@[q - 1] == '_') ==> !targets@.contains(
                    #[trigger] nombre@.skip(q),
                ),
        ensures
            forall|q: int|
                0 <= q <= n && (q == 0 || nombre@[q - 1] == '_') ==> !targets@.contains(
                    #[trigger] nombre@.skip(q),
                ),
        decreases n + 1 - p,
    {
        if p == 0 || v[p - 1] == '_' {
            let cola = nombre.as_str().substring_char(p, v.len());
            assert(cola@ =~= nombre@.skip(p as int));
            if targets.contains(cola) {
                assert(nombra_target(nombre@, cola@)) by {
                    if p == 0 {
                        assert(cola@ =~= nombre@);
                    } else {
                        assert(nombre@.skip(p - 1) =~= seq!['_'] + cola@);
                    }
                }
                return true;
            }
        }
        if p == v.len() {
            break ;
        }
        p += 1;
    }
    assert forall|t: Seq<char>| #[trigger] targets@.contains(t) implies !nombra_target(
        nombre@,
        t,
    ) by {
        if nombre@ == t {
            assert(nombre@.skip(0) =~= t);
        } else if texto::termina_en(nombre@, seq!['_'] + t) {
            let q = nombre@.len() - t.len();
            let s = nombre@.skip(q - 1);
            assert(s == seq!['_'] + t);
            assert(nombre@[q - 1] == s[0]);
            assert(nombre@.skip(q) =~= s.skip(1));
            assert(s.skip(1) =~= t);
        }
    }
    false
}

/// ¿Es `a` estrictamente más reciente que `b`? Lo que no tiene fecha es lo más viejo.
pub open spec fn mas_reciente(a: Option<Instante>, b: Option<Instante>) -> bool {
    match (a, b) {
        (Some(x), Some(y)) => y.antes_que(x),
        (Some(_), None) => true,
        (None, _) => false,
    }
}

fn es_mas_reciente(a: Option<Instante>, b: Option<Instante>) -> (r: bool)
    ensures
        r == mas_reciente(a, b),
{
    match a {
        Some(x) => match b {
            Some(y) => y.antes(&x),
            None => true,
        },
        None => false,
    }
}

/// ¿Son dos variantes de la misma unidad: mismo paquete y mismo stem?
pub open spec fn misma_unidad(a: UnidadVista, b: UnidadVista) -> bool {
    a.pkg == b.pkg && a.stem == b.stem
}

/// ¿Va la variante `j` delante de la `i`? Las más recientes van primero, y de dos
/// igual de recientes la que se leyó antes.
pub open spec fn va_delante(units: Seq<UnidadVista>, j: int, i: int) -> bool {
    &&& 0 <= j < units.len()
    &&& misma_unidad(units[j], units[i])
    &&& mas_reciente(units[j].invoked, units[i].invoked) || (!mas_reciente(
        units[i].invoked,
        units[j].invoked,
    ) && j < i)
}

/// Las variantes que van delante de la `i`.
pub open spec fn delante(units: Seq<UnidadVista>, i: int) -> Set<int> {
    Set::new(|j: int| va_delante(units, j, i))
}

/// ¿Es una unidad de un paquete del workspace con el stem de un target vigente?
pub open spec fn del_workspace(
    u: UnidadVista,
    members: Map<Seq<char>, Set<Seq<char>>>,
) -> bool {
    members.contains_key(u.pkg) && vigente(u.stem, members[u.pkg])
}

/// ¿Ancla la unidad `i` el conjunto vivo? Es del workspace, y está entre las
/// `keep_configs` primeras de sus variantes.
pub open spec fn es_raiz(
    units: Seq<UnidadVista>,
    members: Map<Seq<char>, Set<Seq<char>>>,
    keep_configs: nat,
    i: int,
) -> bool {
    &&& 0 <= i < units.len()
    &&& del_workspace(units[i], members)
    &&& delante(units, i).len() < keep_configs
}

/// Las unidades que anclan el conjunto vivo.
pub open spec fn conjunto_de_raices(
    units: Seq<UnidadVista>,
    members: Map<Seq<char>, Set<Seq<char>>>,
    keep_configs: nat,
) -> Set<int> {
    Set::new(|i: int| es_raiz(units, members, keep_configs, i))
}

/// Delante de una variante van menos variantes que unidades hay.
proof fn lemma_delante_acotado(units: Seq<UnidadVista>, i: int)
    requires
        0 <= i < units.len(),
    ensures
        delante(units, i).finite(),
        delante(units, i).len() < units.len(),
{
    let todas = vstd::set_lib::set_int_range(0, units.len() as int);
    vstd::set_lib::lemma_int_range(0, units.len() as int);
    vstd::set_lib::lemma_len_subset(delante(units, i), todas.remove(i));
}

/// ¿Pertenece la unidad a un target vigente del workspace?
pub fn unidad_del_workspace(u: &Unit, members: &Miembros) -> (r: bool)
    ensures
        r == del_workspace(u@, members@),
{
    match members.get(u.pkg.as_str()) {
        Some(targets) => stem_vigente(u.stem.as_str(), targets),
        None => false,
    }
}

/// Cuántas variantes van delante de la `i`.
fn cuantas_delante(units: &Vec<&Unit>, i: usize) -> (r: usize)
    requires
        i < units@.len(),
    ensures
        r == delante(fingerprint::vistas_de_referencias(units@), i as int).len(),
{
    let ghost vistas = fingerprint::vistas_de_referencias(units@);
    let mut cuantas: usize = 0;
    let ghost mut contadas: Set<int> = Set::empty();
    for j in 0..units.len()
        invariant
            i < units@.len(),
            vistas == fingerprint::vistas_de_referencias(units@),
            contadas.finite(),
            cuantas == contadas.len(),
            cuantas <= j,
            forall|k: int| contadas.contains(k) <==> k < j && va_delante(vistas, k, i as int),
    {
        let a = units[j];
        let b = units[i];
        assert(vistas[j as int] == a@ && vistas[i as int] == b@);
        if texto::iguales(a.pkg.as_str(), b.pkg.as_str()) && texto::iguales(
            a.stem.as_str(),
            b.stem.as_str(),
        ) && (es_mas_reciente(a.invoked, b.invoked) || (!es_mas_reciente(b.invoked, a.invoked) && j
            < i)) {
            cuantas += 1;
            proof {
                contadas = contadas.insert(j as int);
            }
        }
    }
    assert(contadas =~= delante(vistas, i as int));
    cuantas
}

/// Las raíces, sobre referencias a las unidades.
fn raices_de(units: &Vec<&Unit>, members: &Miembros, keep_configs: usize) -> (roots: Vec<usize>)
    ensures
        forall|i: usize|
            roots@.contains(i) <==> es_raiz(
                fingerprint::vistas_de_referencias(units@),
                members@,
                keep_configs as nat,
                i as int,
            ),
        forall|k: int, l: int| 0 <= k < l < roots@.len() ==> roots@[k] < roots@[l],
{
    let ghost vistas = fingerprint::vistas_de_referencias(units@);
    let mut roots: Vec<usize> = Vec::new();
    for i in 0..units.len()
        invariant
            vistas == fingerprint::vistas_de_referencias(units@),
            forall|k: int| 0 <= k < roots@.len() ==> #[trigger] roots@[k] < i,
            forall|k: int, l: int| 0 <= k < l < roots@.len() ==> roots@[k] < roots@[l],
            forall|k: usize|
                roots@.contains(k) <==> k < i && es_raiz(
                    vistas,
                    members@,
                    keep_configs as nat,
                    k as int,
                ),
    {
        let ghost antes = roots@;
        assert(vistas[i as int] == units@[i as int]@);
        proof {
            lemma_delante_acotado(vistas, i as int);
        }
        let raiz = unidad_del_workspace(units[i], members) && (keep_configs >= units.len()
            || cuantas_delante(units, i) < keep_configs);
        assert(raiz == es_raiz(vistas, members@, keep_configs as nat, i as int));
        if raiz {
            roots.push(i);
            assert forall|k: usize| roots@.contains(k) <==> (antes.contains(k) || k == i) by {
                if antes.contains(k) {
                    let p = choose|p: int| 0 <= p < antes.len() && antes[p] == k;
                    assert(roots@[p] == k);
                }
                assert(roots@[antes.len() as int] == i);
            }
        }
        assert forall|k: usize|
            roots@.contains(k) <==> k < i + 1 && es_raiz(
                vistas,
                members@,
                keep_configs as nat,
                k as int,
            ) by {
            assert(antes.contains(k) <==> k < i && es_raiz(
                vistas,
                members@,
                keep_configs as nat,
                k as int,
            ));
        }
    }
    roots
}

/// Unidades del workspace que anclan el conjunto vivo, de menor a mayor posición.
///
/// Con `keep_configs` al máximo (el valor por defecto) devuelve todas las
/// variantes de cada `(paquete, tipo de unidad)` cuyo stem siga correspondiendo a
/// un target declarado hoy. Un valor menor poda por `invoked.timestamp`, que es
/// inseguro: la variante más reciente no es la que se va a construir, sino la
/// última que tocó una recompilación.
pub fn raices(units: &Vec<Unit>, members: &Miembros, keep_configs: usize) -> (roots: Vec<usize>)
    ensures
        forall|i: usize|
            roots@.contains(i) <==> es_raiz(
                fingerprint::unidades_vistas(units@),
                members@,
                keep_configs as nat,
                i as int,
            ),
        forall|k: int, l: int| 0 <= k < l < roots@.len() ==> roots@[k] < roots@[l],
{
    let refs = fingerprint::referencias(units);
    raices_de(&refs, members, keep_configs)
}

/// ¿Depende la unidad `i` de la `j`? Alguna arista de `i` lleva el hash de
/// fingerprint de `j`.
pub open spec fn depende(units: Seq<UnidadVista>, i: int, j: int) -> bool {
    &&& 0 <= i < units.len()
    &&& 0 <= j < units.len()
    &&& exists|k: int|
        0 <= k < units[i].deps.len() && units[j].fp_hash == Some((#[trigger] units[i].deps[k]).1)
}

/// ¿Es un camino del grafo que sale de alguno de los orígenes?
pub open spec fn es_camino(units: Seq<UnidadVista>, origen: Set<int>, p: Seq<int>) -> bool {
    &&& p.len() > 0
    &&& origen.contains(p[0])
    &&& forall|k: int| 0 <= k < p.len() - 1 ==> depende(units, #[trigger] p[k], p[k + 1])
}

/// ¿Se llega a la unidad `i` desde alguno de los orígenes?
pub open spec fn alcanzable(units: Seq<UnidadVista>, origen: Set<int>, i: int) -> bool {
    exists|p: Seq<int>| #[trigger] es_camino(units, origen, p) && p.last() == i
}

/// Las unidades a las que se llega desde los orígenes.
pub open spec fn alcanzables(units: Seq<UnidadVista>, origen: Set<int>) -> Set<int> {
    Set::new(|i: int| alcanzable(units, origen, i))
}

/// A un origen se llega sin dar ningún paso.
proof fn lemma_origen_alcanzable(units: Seq<UnidadVista>, origen: Set<int>, i: int)
    requires
        origen.contains(i),
    ensures
        alcanzable(units, origen, i),
{
    assert(es_camino(units, origen, seq![i]));
}

/// De lo que se alcanza se alcanza también aquello de lo que depende.
proof fn lemma_un_paso_mas(units: Seq<UnidadVista>, origen: Set<int>, i: int, j: int)
    requires
        alcanzable(units, origen, i),
        depende(units, i, j),
    ensures
        alcanzable(units, origen, j),
{
    let p = choose|p: Seq<int>| #[trigger] es_camino(units, origen, p) && p.last() == i;
    let q = p.push(j);
    assert forall|k: int| 0 <= k < q.len() - 1 implies depende(units, #[trigger] q[k], q[k + 1]) by {
        if k < p.len() - 1 {
            assert(depende(units, p[k], p[k + 1]));
        }
    }
    assert(es_camino(units, origen, q));
}

/// Un conjunto que tiene los orígenes y del que ninguna arista sale contiene
/// todo lo alcanzable.
proof fn lemma_cerrado_contiene_lo_alcanzable(
    units: Seq<UnidadVista>,
    origen: Set<int>,
    s: Set<int>,
    i: int,
)
    requires
        origen.subset_of(s),
        forall|a: int, b: int| s.contains(a) && #[trigger] depende(units, a, b) ==> s.contains(b),
        alcanzable(units, origen, i),
    ensures
        s.contains(i),
{
    let p = choose|p: Seq<int>| #[trigger] es_camino(units, origen, p) && p.last() == i;
    lemma_camino_dentro(units, origen, s, p, p.len() - 1);
}

proof fn lemma_camino_dentro(
    units: Seq<UnidadVista>,
    origen: Set<int>,
    s: Set<int>,
    p: Seq<int>,
    k: int,
)
    requires
        origen.subset_of(s),
        forall|a: int, b: int| s.contains(a) && #[trigger] depende(units, a, b) ==> s.contains(b),
        es_camino(units, origen, p),
        0 <= k < p.len(),
    ensures
        s.contains(p[k]),
    decreases k,
{
    if k > 0 {
        lemma_camino_dentro(units, origen, s, p, k - 1);
        assert(depende(units, p[k - 1], p[k - 1 + 1]));
    }
}

/// Apila aquello de lo que depende la unidad `i` y que todavía no se vio.
fn apilar_dependencias(
    units: &Vec<&Unit>,
    indice: &HashMap<u64, Vec<usize>>,
    i: usize,
    visto: &Vec<bool>,
    pila: &mut Vec<usize>,
)
    requires
        fingerprint::es_indice(indice@, fingerprint::vistas_de_referencias(units@)),
        i < units@.len(),
        visto@.len() == units@.len(),
    ensures
        old(pila)@.len() <= final(pila)@.len(),
        forall|k: int| 0 <= k < old(pila)@.len() ==> final(pila)@[k] == #[trigger] old(pila)@[k],
        forall|k: int|
            old(pila)@.len() <= k < final(pila)@.len() ==> depende(
                fingerprint::vistas_de_referencias(units@),
                i as int,
                #[trigger] final(pila)@[k] as int,
            ),
        forall|j: int|
            #[trigger] depende(fingerprint::vistas_de_referencias(units@), i as int, j)
                ==> visto@[j] || final(pila)@.contains(j as usize),
{
    let ghost vistas = fingerprint::vistas_de_referencias(units@);
    let ghost base = pila@;
    let deps = &units[i].deps;
    assert(vistas[i as int] == units@[i as int]@);
    assert(vistas[i as int].deps == fingerprint::aristas_vistas(deps@));
    for k in 0..deps.len()
        invariant
            fingerprint::es_indice(indice@, vistas),
            vistas == fingerprint::vistas_de_referencias(units@),
            vistas[i as int].deps == fingerprint::aristas_vistas(deps@),
            i < units@.len(),
            visto@.len() == units@.len(),
            base.len() <= pila@.len(),
            forall|l: int| 0 <= l < base.len() ==> pila@[l] == #[trigger] base[l],
            forall|l: int|
                base.len() <= l < pila@.len() ==> depende(
                    vistas,
                    i as int,
                    #[trigger] pila@[l] as int,
                ),
            forall|l: int, j: int|
                0 <= l < k && 0 <= j < vistas.len() && (#[trigger] vistas[j]).fp_hash == Some(
                    (#[trigger] vistas[i as int].deps[l]).1,
                ) ==> visto@[j] || pila@.contains(j as usize),
    {
        let fp: u64 = deps[k].1;
        assert(vistas[i as int].deps[k as int].1 == fp);
        proof {
            fingerprint::lemma_posiciones(vistas, fp);
        }
        let ghost previa = pila@;
        if let Some(idxs) = indice.get(&fp) {
            assert(fingerprint::enteros(idxs@) == fingerprint::posiciones(vistas, fp));
            for m in 0..idxs.len()
                invariant
                    fingerprint::enteros(idxs@) == fingerprint::posiciones(vistas, fp),
                    forall|q: int|
                        0 <= q < fingerprint::posiciones(vistas, fp).len() ==> 0
                            <= #[trigger] fingerprint::posiciones(vistas, fp)[q] < vistas.len()
                            && vistas[fingerprint::posiciones(vistas, fp)[q]].fp_hash == Some(fp),
                    vistas == fingerprint::vistas_de_referencias(units@),
                    i < units@.len(),
                    k < deps@.len(),
                    vistas[i as int].deps == fingerprint::aristas_vistas(deps@),
                    vistas[i as int].deps[k as int].1 == fp,
                    visto@.len() == units@.len(),
                    base.len() <= previa.len() <= pila@.len(),
                    forall|l: int| 0 <= l < previa.len() ==> pila@[l] == #[trigger] previa[l],
                    forall|l: int| 0 <= l < base.len() ==> pila@[l] == #[trigger] base[l],
                    forall|l: int|
                        base.len() <= l < pila@.len() ==> depende(
                            vistas,
                            i as int,
                            #[trigger] pila@[l] as int,
                        ),
                    forall|q: int|
                        0 <= q < m ==> visto@[fingerprint::enteros(idxs@)[q]] || pila@.contains(
                            #[trigger] idxs@[q],
                        ),
            {
                let j: usize = idxs[m];
                assert(fingerprint::enteros(idxs@)[m as int] == j);
                assert(fingerprint::posiciones(vistas, fp)[m as int] == j);
                assert(depende(vistas, i as int, j as int));
                let ghost anterior = pila@;
                if !visto[j] {
                    pila.push(j);
                    assert(pila@[anterior.len() as int] == j);
                }
                assert forall|q: int| 0 <= q < m + 1 implies visto@[fingerprint::enteros(
                    idxs@,
                )[q]] || pila@.contains(#[trigger] idxs@[q]) by {
                    if q < m && anterior.contains(idxs@[q]) {
                        let l = choose|l: int|
                            0 <= l < anterior.len() && anterior[l] == idxs@[q];
                        assert(pila@[l] == idxs@[q]);
                    }
                }
            }
            assert forall|j: int|
                0 <= j < vistas.len() && (#[trigger] vistas[j]).fp_hash == Some(fp) implies visto@[j]
                || pila@.contains(j as usize) by {
                assert(fingerprint::posiciones(vistas, fp).contains(j));
                let q = choose|q: int|
                    0 <= q < fingerprint::posiciones(vistas, fp).len()
                        && fingerprint::posiciones(vistas, fp)[q] == j;
                assert(fingerprint::enteros(idxs@)[q] == j);
                assert(idxs@[q] == j as usize);
            }
        } else {
            assert(!fingerprint::resuelve(vistas, fp));
        }
        assert forall|l: int, j: int|
            0 <= l < k + 1 && 0 <= j < vistas.len() && (#[trigger] vistas[j]).fp_hash == Some(
                (#[trigger] vistas[i as int].deps[l]).1,
            ) implies visto@[j] || pila@.contains(j as usize) by {
            if l < k && !visto@[j] {
                assert(previa.contains(j as usize));
                let q = choose|q: int| 0 <= q < previa.len() && previa[q] == j as usize;
                assert(pila@[q] == j as usize);
            }
        }
    }
}

/// Unas posiciones, como conjunto.
pub open spec fn como_conjunto(v: Seq<usize>) -> Set<int> {
    Set::new(|i: int| 0 <= i <= usize::MAX && v.contains(i as usize))
}

/// Recorre el grafo desde las raíces: qué unidades se alcanzan, y cuántas son.
fn alcanzar(units: &Vec<&Unit>, indice: &HashMap<u64, Vec<usize>>, roots: &Vec<usize>) -> (r: (
    Vec<bool>,
    usize,
))
    requires
        fingerprint::es_indice(indice@, fingerprint::vistas_de_referencias(units@)),
        forall|k: int| 0 <= k < roots@.len() ==> #[trigger] roots@[k] < units@.len(),
    ensures
        r.0@.len() == units@.len(),
        forall|i: int|
            0 <= i < units@.len() ==> #[trigger] r.0@[i] == alcanzable(
                fingerprint::vistas_de_referencias(units@),
                como_conjunto(roots@),
                i,
            ),
        alcanzables(
            fingerprint::vistas_de_referencias(units@),
            como_conjunto(roots@),
        ).finite(),
        r.1 == alcanzables(
            fingerprint::vistas_de_referencias(units@),
            como_conjunto(roots@),
        ).len(),
{
    let ghost vistas = fingerprint::vistas_de_referencias(units@);
    let ghost origen = como_conjunto(roots@);
    let n: usize = units.len();
    let mut visto: Vec<bool> = Vec::new();
    for i in 0..n
        invariant
            visto@.len() == i,
            forall|k: int| 0 <= k < i ==> !#[trigger] visto@[k],
    {
        visto.push(false);
    }
    let mut pila: Vec<usize> = Vec::new();
    for i in 0..roots.len()
        invariant
            pila@ == roots@.take(i as int),
    {
        pila.push(roots[i]);
        assert(pila@ =~= roots@.take(i + 1));
    }
    assert(pila@ =~= roots@);
    let mut cuantas: usize = 0;
    let ghost mut vistos: Set<int> = Set::empty();
    proof {
        assert forall|k: int| 0 <= k < pila@.len() implies alcanzable(
            vistas,
            origen,
            #[trigger] pila@[k] as int,
        ) by {
            assert(roots@.contains(pila@[k]));
            lemma_origen_alcanzable(vistas, origen, pila@[k] as int);
        }
        vstd::set_lib::lemma_int_range(0, n as int);
    }
    while pila.len() > 0
        invariant
            fingerprint::es_indice(indice@, vistas),
            vistas == fingerprint::vistas_de_referencias(units@),
            origen == como_conjunto(roots@),
            n == units@.len(),
            visto@.len() == n,
            vistos.finite(),
            cuantas == vistos.len(),
            vistos.len() <= n,
            forall|i: int|
                #![trigger vistos.contains(i)]
                #![trigger visto@[i]]
                vistos.contains(i) <==> 0 <= i < n && visto@[i],
            forall|i: int| #[trigger] vistos.contains(i) ==> alcanzable(vistas, origen, i),
            forall|k: int|
                0 <= k < pila@.len() ==> #[trigger] pila@[k] < n && alcanzable(
                    vistas,
                    origen,
                    pila@[k] as int,
                ),
            forall|i: int|
                #[trigger] origen.contains(i) ==> vistos.contains(i) || pila@.contains(i as usize),
            forall|a: int, b: int|
                vistos.contains(a) && #[trigger] depende(vistas, a, b) ==> vistos.contains(b)
                    || pila@.contains(b as usize),
        decreases n - vistos.len(), pila@.len(),
    {
        let ghost previa = pila@;
        let ghost vistos_antes = vistos;
        let i: usize = pila.pop().unwrap();
        assert(previa[previa.len() - 1] == i);
        let ghost sin_tope = pila@;
        assert forall|x: usize| previa.contains(x) && x != i implies #[trigger] sin_tope.contains(
            x,
        ) by {
            let k = choose|k: int| 0 <= k < previa.len() && previa[k] == x;
            assert(sin_tope[k] == x);
        }
        assert forall|k: int| 0 <= k < sin_tope.len() implies #[trigger] sin_tope[k] < n
            && alcanzable(vistas, origen, sin_tope[k] as int) by {
            assert(previa[k] == sin_tope[k]);
        }
        if visto[i] {
            assert(vistos.contains(i as int));
            continue ;
        }
        visto.set(i, true);
        proof {
            vistos = vistos.insert(i as int);
            vstd::set_lib::lemma_int_range(0, n as int);
            vstd::set_lib::lemma_len_subset(vistos, vstd::set_lib::set_int_range(0, n as int));
        }
        cuantas += 1;
        apilar_dependencias(units, indice, i, &visto, &mut pila);
        assert forall|x: usize| #[trigger] sin_tope.contains(x) implies pila@.contains(x) by {
            let k = choose|k: int| 0 <= k < sin_tope.len() && sin_tope[k] == x;
            assert(pila@[k] == x);
        }
        assert forall|k: int| 0 <= k < pila@.len() implies #[trigger] pila@[k] < n && alcanzable(
            vistas,
            origen,
            pila@[k] as int,
        ) by {
            if k < sin_tope.len() {
                assert(pila@[k] == sin_tope[k]);
            } else {
                lemma_un_paso_mas(vistas, origen, i as int, pila@[k] as int);
            }
        }
        assert forall|j: int| #[trigger] origen.contains(j) implies vistos.contains(j)
            || pila@.contains(j as usize) by {
            if !vistos.contains(j) {
                assert(previa.contains(j as usize));
                assert(sin_tope.contains(j as usize));
            }
        }
        assert forall|a: int, b: int|
            vistos.contains(a) && #[trigger] depende(vistas, a, b) implies vistos.contains(b)
            || pila@.contains(b as usize) by {
            if !vistos.contains(b) {
                if a == i {
                    assert(visto@[b] || pila@.contains(b as usize));
                } else {
                    assert(vistos_antes.contains(a));
                    assert(previa.contains(b as usize));
                    assert(sin_tope.contains(b as usize));
                }
            }
        }
    }
    assert(vistos =~= alcanzables(vistas, origen)) by {
        assert forall|i: int| alcanzable(vistas, origen, i) implies vistos.contains(i) by {
            lemma_cerrado_contiene_lo_alcanzable(vistas, origen, vistos, i);
        }
    }
    (visto, cuantas)
}

/// Conjunto vivo calculado sobre **todos** los perfiles del `target/` a la vez.
///
/// Es imprescindible que sea global: al cruzar-compilar, el grafo abarca dos
/// directorios de perfil. Las unidades de `x86_64-unknown-linux-musl/release/`
/// dependen de proc-macros y build scripts que viven en el `release/` del host,
/// porque esos se compilan para la máquina que compila, no para el target.
/// Perfil por perfil esas aristas no resuelven y el lado host parece
/// inalcanzable.
pub struct Vivos {
    /// Sufijos de hash de las unidades vivas.
    pub hashes: Conjunto,
    /// Cuántas unidades anclan el conjunto.
    pub roots: usize,
    /// Cuántas unidades están vivas.
    pub reachable: usize,
    /// Cuántas aristas hay en total.
    pub edges_total: usize,
    /// Cuántas aristas llevan a alguna unidad.
    pub edges_resolved: usize,
    /// La última vez que un build usó alguna unidad.
    pub anchor: Option<Instante>,
}

/// Las unidades de todos los perfiles, una tras otra.
pub open spec fn unidades_de(profiles: Seq<PerfilVista>) -> Seq<UnidadVista>
    decreases profiles.len(),
{
    if profiles.len() == 0 {
        Seq::empty()
    } else {
        unidades_de(profiles.drop_last()) + profiles.last().units
    }
}

/// Las vistas de unos perfiles.
pub open spec fn perfiles_vistos(profiles: Seq<Profile>) -> Seq<PerfilVista> {
    profiles.map_values(|p: Profile| p@)
}

/// Cuántas aristas tienen en total unas unidades.
pub open spec fn cuantas_aristas(units: Seq<UnidadVista>) -> nat
    decreases units.len(),
{
    if units.len() == 0 {
        0
    } else {
        cuantas_aristas(units.drop_last()) + units.last().deps.len()
    }
}

/// De las aristas de una unidad, cuántas llevan a alguna de todas las unidades.
pub open spec fn resueltas_de_una(todas: Seq<UnidadVista>, deps: Seq<(Seq<char>, u64)>) -> nat
    decreases deps.len(),
{
    if deps.len() == 0 {
        0
    } else {
        resueltas_de_una(todas, deps.drop_last()) + if fingerprint::resuelve(todas, deps.last().1) {
            1nat
        } else {
            0nat
        }
    }
}

/// De las aristas de unas unidades, cuántas llevan a alguna de todas las unidades.
pub open spec fn cuantas_resueltas(todas: Seq<UnidadVista>, units: Seq<UnidadVista>) -> nat
    decreases units.len(),
{
    if units.len() == 0 {
        0
    } else {
        cuantas_resueltas(todas, units.drop_last()) + resueltas_de_una(todas, units.last().deps)
    }
}

/// ¿Es `t` el instante más reciente en que se usó alguna de las unidades?
pub open spec fn es_ultima_actividad(units: Seq<UnidadVista>, t: Option<Instante>) -> bool {
    &&& forall|i: int| 0 <= i < units.len() ==> !mas_reciente((#[trigger] units[i]).invoked, t)
    &&& t is Some ==> exists|i: int| 0 <= i < units.len() && (#[trigger] units[i]).invoked == t
}

/// Las unidades vivas: las que se alcanzan desde las raíces.
pub open spec fn vivas(
    units: Seq<UnidadVista>,
    members: Map<Seq<char>, Set<Seq<char>>>,
    keep_configs: nat,
) -> Set<int> {
    alcanzables(units, conjunto_de_raices(units, members, keep_configs))
}

/// Los sufijos de hash de las unidades vivas.
pub open spec fn hashes_vivos(
    units: Seq<UnidadVista>,
    members: Map<Seq<char>, Set<Seq<char>>>,
    keep_configs: nat,
) -> Set<Seq<char>> {
    hashes_de(units, vivas(units, members, keep_configs))
}

/// Los sufijos de hash de las unidades que están en `cuales`.
pub open spec fn hashes_de(units: Seq<UnidadVista>, cuales: Set<int>) -> Set<Seq<char>> {
    Set::new(
        |h: Seq<char>|
            exists|i: int|
                0 <= i < units.len() && cuales.contains(i) && (#[trigger] units[i]).filename_hash
                    == h,
    )
}

/// Referencias a las unidades de todos los perfiles, una tras otra.
fn reunir(profiles: &Vec<Profile>) -> (r: Vec<&Unit>)
    ensures
        fingerprint::vistas_de_referencias(r@) == unidades_de(perfiles_vistos(profiles@)),
{
    let ghost vistos = perfiles_vistos(profiles@);
    let mut r: Vec<&Unit> = Vec::new();
    for p in 0..profiles.len()
        invariant
            vistos == perfiles_vistos(profiles@),
            fingerprint::vistas_de_referencias(r@) == unidades_de(vistos.take(p as int)),
    {
        let units = &profiles[p].units;
        let ghost propias = fingerprint::unidades_vistas(units@);
        let ghost antes = fingerprint::vistas_de_referencias(r@);
        assert(antes + propias.take(0) =~= antes);
        for i in 0..units.len()
            invariant
                propias == fingerprint::unidades_vistas(units@),
                fingerprint::vistas_de_referencias(r@) == antes + propias.take(i as int),
        {
            let ghost previas = r@;
            r.push(&units[i]);
            assert(fingerprint::vistas_de_referencias(r@)
                =~= fingerprint::vistas_de_referencias(previas).push(propias[i as int]));
            assert(antes + propias.take(i + 1) =~= (antes + propias.take(i as int)).push(
                propias[i as int],
            ));
        }
        assert(propias.take(propias.len() as int) =~= propias);
        assert(vistos.take(p + 1).drop_last() =~= vistos.take(p as int));
        assert(vistos.take(p + 1).last().units == propias);
    }
    assert(vistos.take(vistos.len() as int) =~= vistos);
    r
}

/// Contar un tramo no da más que contar el total.
proof fn lemma_aristas_de_un_tramo(todas: Seq<UnidadVista>, units: Seq<UnidadVista>, i: int)
    requires
        0 <= i <= units.len(),
    ensures
        cuantas_aristas(units.take(i)) <= cuantas_aristas(units),
        cuantas_resueltas(todas, units.take(i)) <= cuantas_aristas(units.take(i)),
    decreases units.len() - i, i,
{
    if i == units.len() {
        assert(units.take(i) =~= units);
        lemma_resueltas_acotadas(todas, units);
    } else {
        lemma_aristas_de_un_tramo(todas, units, i + 1);
        assert(units.take(i + 1).drop_last() =~= units.take(i));
        lemma_resueltas_acotadas(todas, units.take(i));
    }
}

proof fn lemma_resueltas_acotadas(todas: Seq<UnidadVista>, units: Seq<UnidadVista>)
    ensures
        cuantas_resueltas(todas, units) <= cuantas_aristas(units),
    decreases units.len(),
{
    if units.len() > 0 {
        lemma_resueltas_acotadas(todas, units.drop_last());
        lemma_resueltas_de_una_acotadas(todas, units.last().deps);
    }
}

proof fn lemma_resueltas_de_una_acotadas(todas: Seq<UnidadVista>, deps: Seq<(Seq<char>, u64)>)
    ensures
        resueltas_de_una(todas, deps) <= deps.len(),
    decreases deps.len(),
{
    if deps.len() > 0 {
        lemma_resueltas_de_una_acotadas(todas, deps.drop_last());
    }
}

/// Cuenta las aristas, y las que llevan a alguna unidad.
fn contar_aristas(units: &Vec<&Unit>, indice: &HashMap<u64, Vec<usize>>) -> (r: (usize, usize))
    requires
        fingerprint::es_indice(indice@, fingerprint::vistas_de_referencias(units@)),
        cuantas_aristas(fingerprint::vistas_de_referencias(units@)) <= usize::MAX,
    ensures
        r.0 == cuantas_aristas(fingerprint::vistas_de_referencias(units@)),
        r.1 == cuantas_resueltas(
            fingerprint::vistas_de_referencias(units@),
            fingerprint::vistas_de_referencias(units@),
        ),
{
    let ghost vistas = fingerprint::vistas_de_referencias(units@);
    let mut total: usize = 0;
    let mut resueltas: usize = 0;
    for i in 0..units.len()
        invariant
            fingerprint::es_indice(indice@, vistas),
            vistas == fingerprint::vistas_de_referencias(units@),
            cuantas_aristas(vistas) <= usize::MAX,
            total == cuantas_aristas(vistas.take(i as int)),
            resueltas == cuantas_resueltas(vistas, vistas.take(i as int)),
    {
        let deps = &units[i].deps;
        let ghost propias = fingerprint::aristas_vistas(deps@);
        let ghost total_antes = total;
        let ghost resueltas_antes = resueltas;
        assert(vistas.take(i + 1).drop_last() =~= vistas.take(i as int));
        assert(vistas.take(i + 1).last() == units@[i as int]@);
        proof {
            lemma_aristas_de_un_tramo(vistas, vistas, i + 1);
            lemma_aristas_de_un_tramo(vistas, vistas, i as int);
        }
        for k in 0..deps.len()
            invariant
                fingerprint::es_indice(indice@, vistas),
                propias == fingerprint::aristas_vistas(deps@),
                total_antes + propias.len() <= usize::MAX,
                resueltas_antes <= total_antes,
                total == total_antes + k,
                resueltas == resueltas_antes + resueltas_de_una(vistas, propias.take(k as int)),
        {
            let fp: u64 = deps[k].1;
            assert(propias.take(k + 1).drop_last() =~= propias.take(k as int));
            assert(propias.take(k + 1).last().1 == fp);
            proof {
                fingerprint::lemma_posiciones(vistas, fp);
                lemma_resueltas_de_una_acotadas(vistas, propias.take(k as int));
            }
            total += 1;
            if indice.contains_key(&fp) {
                resueltas += 1;
            }
        }
        assert(propias.take(propias.len() as int) =~= propias);
    }
    assert(vistas.take(vistas.len() as int) =~= vistas);
    (total, resueltas)
}

/// La última vez que un build usó alguna de las unidades.
fn ultima_actividad(units: &Vec<&Unit>) -> (r: Option<Instante>)
    ensures
        es_ultima_actividad(fingerprint::vistas_de_referencias(units@), r),
{
    let ghost vistas = fingerprint::vistas_de_referencias(units@);
    let mut ultima: Option<Instante> = None;
    for i in 0..units.len()
        invariant
            vistas == fingerprint::vistas_de_referencias(units@),
            forall|k: int| 0 <= k < i ==> !mas_reciente((#[trigger] vistas[k]).invoked, ultima),
            ultima is Some ==> exists|k: int|
                0 <= k < vistas.len() && (#[trigger] vistas[k]).invoked == ultima,
    {
        let t = units[i].invoked;
        assert(vistas[i as int].invoked == t);
        if es_mas_reciente(t, ultima) {
            ultima = t;
        }
    }
    ultima
}

/// Fase **mark**: las raíces y todo lo que se alcanza desde ellas.
///
/// Las dos mitades son necesarias y ninguna basta sola:
///
/// - Cargo solo toca `invoked.timestamp` de las unidades que **recompila**. Una
///   dependencia fresca conserva su fecha vieja, así que podar por antigüedad
///   borra artefactos vivos.
/// - El grafo por sí solo no distingue lo vivo de lo muerto: una variante obsoleta
///   sigue siendo alcanzable desde el padre obsoleto que la referenciaba.
pub fn conjunto_vivo(profiles: &Vec<Profile>, members: &Miembros, keep_configs: usize) -> (r: Vivos)
    requires
        cuantas_aristas(unidades_de(perfiles_vistos(profiles@))) <= usize::MAX,
    ensures
        ({
            let units = unidades_de(perfiles_vistos(profiles@));
            let raices = conjunto_de_raices(units, members@, keep_configs as nat);
            let vivas = vivas(units, members@, keep_configs as nat);
            &&& raices.finite() && r.roots == raices.len()
            &&& vivas.finite() && r.reachable == vivas.len()
            &&& r.hashes@ == hashes_vivos(units, members@, keep_configs as nat)
            &&& r.edges_total == cuantas_aristas(units)
            &&& r.edges_resolved == cuantas_resueltas(units, units)
            &&& es_ultima_actividad(units, r.anchor)
        }),
{
    let units = reunir(profiles);
    let ghost vistas = fingerprint::vistas_de_referencias(units@);
    let indice = fingerprint::indexar(&units);
    let (edges_total, edges_resolved) = contar_aristas(&units, &indice);
    let roots = raices_de(&units, members, keep_configs);
    let ghost origen = conjunto_de_raices(vistas, members@, keep_configs as nat);
    proof {
        assert(como_conjunto(roots@) =~= origen) by {
            assert forall|i: int| origen.contains(i) implies como_conjunto(roots@).contains(i) by {
                assert(roots@.contains(i as usize));
            }
        }
        let ids = fingerprint::enteros(roots@);
        assert(ids.no_duplicates());
        ids.unique_seq_to_set();
        assert(ids.to_set() =~= origen) by {
            assert forall|i: int| origen.contains(i) implies ids.to_set().contains(i) by {
                assert(roots@.contains(i as usize));
                let k = choose|k: int| 0 <= k < roots@.len() && roots@[k] == i as usize;
                assert(ids[k] == i);
            }
            assert forall|i: int| ids.to_set().contains(i) implies origen.contains(i) by {
                let k = choose|k: int| 0 <= k < ids.len() && ids[k] == i;
                assert(roots@[k] == i as usize);
                assert(roots@.contains(i as usize));
            }
        }
        assert forall|k: int| 0 <= k < roots@.len() implies #[trigger] roots@[k] < units@.len() by {
            assert(roots@.contains(roots@[k]));
        }
    }
    let (visto, reachable) = alcanzar(&units, &indice, &roots);
    let ghost cuales = vivas(vistas, members@, keep_configs as nat);
    let mut hashes = Conjunto::new();
    for i in 0..units.len()
        invariant
            vistas == fingerprint::vistas_de_referencias(units@),
            visto@.len() == units@.len(),
            forall|k: int| 0 <= k < units@.len() ==> #[trigger] visto@[k] == cuales.contains(k),
            hashes@ == hashes_de(vistas.take(i as int), cuales),
    {
        let ghost antes = hashes@;
        assert(vistas[i as int] == units@[i as int]@);
        if visto[i] {
            hashes.insert(units[i].filename_hash.clone());
        }
        assert(hashes@ =~= hashes_de(vistas.take(i + 1), cuales)) by {
            let nuevas = vistas.take(i + 1);
            let previas = vistas.take(i as int);
            assert forall|h: Seq<char>| hashes@.contains(h) implies hashes_de(
                nuevas,
                cuales,
            ).contains(h) by {
                if antes.contains(h) {
                    let k = choose|k: int|
                        0 <= k < previas.len() && cuales.contains(k) && (
                        #[trigger] previas[k]).filename_hash == h;
                    assert(nuevas[k].filename_hash == h);
                } else {
                    assert(nuevas[i as int].filename_hash == h);
                }
            }
            assert forall|h: Seq<char>| hashes_de(nuevas, cuales).contains(h) implies hashes@.contains(
                h,
            ) by {
                let k = choose|k: int|
                    0 <= k < nuevas.len() && cuales.contains(k) && (
                    #[trigger] nuevas[k]).filename_hash == h;
                if k < i {
                    assert(previas[k].filename_hash == h);
                }
            }
        }
    }
    assert(vistas.take(vistas.len() as int) =~= vistas);
    let anchor = ultima_actividad(&units);
    Vivos { hashes, roots: roots.len(), reachable, edges_total, edges_resolved, anchor }
}

/// Las dos grafías de un stem valen lo mismo: los guiones y los guiones bajos no
/// se distinguen, y normalizar dos veces es normalizar una.
pub proof fn ley_las_dos_grafias(stem: Seq<char>, targets: Set<Seq<char>>)
    ensures
        normalizado(normalizado(stem)) == normalizado(stem),
        vigente(normalizado(stem), targets) == vigente(stem, targets),
{
    assert(normalizado(normalizado(stem)) =~= normalizado(stem));
}

/// Todo aquello de lo que depende una unidad viva está vivo, esté en el perfil
/// que esté, y su hash se conserva.
pub proof fn ley_lo_que_usa_lo_vivo_vive(
    units: Seq<UnidadVista>,
    members: Map<Seq<char>, Set<Seq<char>>>,
    keep_configs: nat,
    i: int,
    j: int,
)
    requires
        vivas(units, members, keep_configs).contains(i),
        depende(units, i, j),
    ensures
        vivas(units, members, keep_configs).contains(j),
        hashes_vivos(units, members, keep_configs).contains(units[j].filename_hash),
{
    lemma_un_paso_mas(units, conjunto_de_raices(units, members, keep_configs), i, j);
    assert(units[j].filename_hash == units[j].filename_hash);
}

/// Las raíces están vivas.
pub proof fn ley_las_raices_viven(
    units: Seq<UnidadVista>,
    members: Map<Seq<char>, Set<Seq<char>>>,
    keep_configs: nat,
    i: int,
)
    requires
        es_raiz(units, members, keep_configs, i),
    ensures
        vivas(units, members, keep_configs).contains(i),
        hashes_vivos(units, members, keep_configs).contains(units[i].filename_hash),
{
    lemma_origen_alcanzable(units, conjunto_de_raices(units, members, keep_configs), i);
    assert(units[i].filename_hash == units[i].filename_hash);
}

/// Nada más vive: cualquier conjunto que tenga las raíces y aquello de lo que
/// dependen sus unidades contiene todo lo vivo.
pub proof fn ley_nada_mas_vive(
    units: Seq<UnidadVista>,
    members: Map<Seq<char>, Set<Seq<char>>>,
    keep_configs: nat,
    cerrado: Set<int>,
)
    requires
        conjunto_de_raices(units, members, keep_configs).subset_of(cerrado),
        forall|a: int, b: int|
            cerrado.contains(a) && #[trigger] depende(units, a, b) ==> cerrado.contains(b),
    ensures
        vivas(units, members, keep_configs).subset_of(cerrado),
{
    let origen = conjunto_de_raices(units, members, keep_configs);
    assert forall|i: int| vivas(units, members, keep_configs).contains(i) implies cerrado.contains(
        i,
    ) by {
        lemma_cerrado_contiene_lo_alcanzable(units, origen, cerrado, i);
    }
}

/// Sin podar se conservan todas las configuraciones: cada unidad del workspace
/// con un target vigente es raíz.
pub proof fn ley_sin_podar_todas_son_raices(
    units: Seq<UnidadVista>,
    members: Map<Seq<char>, Set<Seq<char>>>,
    keep_configs: nat,
    i: int,
)
    requires
        0 <= i < units.len(),
        keep_configs >= units.len(),
    ensures
        es_raiz(units, members, keep_configs, i) == del_workspace(units[i], members),
{
    lemma_delante_acotado(units, i);
}

/// Una unidad cuyo paquete no está en el workspace no ancla nada, por más
/// reciente que sea.
pub proof fn ley_un_paquete_ajeno_no_es_raiz(
    units: Seq<UnidadVista>,
    members: Map<Seq<char>, Set<Seq<char>>>,
    keep_configs: nat,
    i: int,
)
    requires
        0 <= i < units.len(),
        !members.contains_key(units[i].pkg),
    ensures
        !es_raiz(units, members, keep_configs, i),
{
}

/// Conservar más configuraciones no mata nada.
pub proof fn ley_conservar_mas_no_mata(
    units: Seq<UnidadVista>,
    members: Map<Seq<char>, Set<Seq<char>>>,
    menos: nat,
    mas: nat,
)
    requires
        menos <= mas,
    ensures
        conjunto_de_raices(units, members, menos).subset_of(conjunto_de_raices(units, members, mas)),
        vivas(units, members, menos).subset_of(vivas(units, members, mas)),
        hashes_vivos(units, members, menos).subset_of(hashes_vivos(units, members, mas)),
{
    let pocas = conjunto_de_raices(units, members, menos);
    let muchas = conjunto_de_raices(units, members, mas);
    assert forall|i: int| vivas(units, members, menos).contains(i) implies vivas(
        units,
        members,
        mas,
    ).contains(i) by {
        let p = choose|p: Seq<int>| #[trigger] es_camino(units, pocas, p) && p.last() == i;
        assert(es_camino(units, muchas, p));
    }
}

/// El orden de las variantes es total y transitivo.
proof fn lemma_orden_de_variantes(units: Seq<UnidadVista>, i: int, j: int, k: int)
    requires
        0 <= i < units.len(),
        0 <= j < units.len(),
        0 <= k < units.len(),
        misma_unidad(units[i], units[j]),
        misma_unidad(units[j], units[k]),
    ensures
        !va_delante(units, i, i),
        i != j ==> va_delante(units, i, j) || va_delante(units, j, i),
        !(va_delante(units, i, j) && va_delante(units, j, i)),
        va_delante(units, i, j) && va_delante(units, j, k) ==> va_delante(units, i, k),
{
}

/// Quien va delante tiene menos variantes delante.
proof fn lemma_delante_crece(units: Seq<UnidadVista>, i: int, j: int)
    requires
        0 <= i < units.len(),
        0 <= j < units.len(),
        va_delante(units, i, j),
    ensures
        delante(units, i).len() < delante(units, j).len(),
{
    lemma_delante_acotado(units, i);
    lemma_delante_acotado(units, j);
    assert forall|k: int| delante(units, i).insert(i).contains(k) implies delante(
        units,
        j,
    ).contains(k) by {
        if k != i {
            lemma_orden_de_variantes(units, k, i, j);
        }
    }
    assert(!delante(units, i).contains(i)) by {
        lemma_orden_de_variantes(units, i, i, i);
    }
    vstd::set_lib::lemma_len_subset(delante(units, i).insert(i), delante(units, j));
}

/// Al podar se conservan las más recientes: toda variante que se queda va
/// delante de toda variante de la misma unidad que se descarta.
pub proof fn ley_se_conservan_las_mas_recientes(
    units: Seq<UnidadVista>,
    members: Map<Seq<char>, Set<Seq<char>>>,
    keep_configs: nat,
    i: int,
    j: int,
)
    requires
        0 <= j < units.len(),
        es_raiz(units, members, keep_configs, i),
        misma_unidad(units[i], units[j]),
        !es_raiz(units, members, keep_configs, j),
    ensures
        va_delante(units, i, j),
        !mas_reciente(units[j].invoked, units[i].invoked),
{
    lemma_orden_de_variantes(units, i, j, j);
    if va_delante(units, j, i) {
        lemma_delante_crece(units, j, i);
    }
}

/// Las variantes de la unidad `i`, ella entre ellas.
pub open spec fn variantes(units: Seq<UnidadVista>, i: int) -> Set<int> {
    Set::new(|j: int| 0 <= j < units.len() && misma_unidad(units[j], units[i]))
}

/// De cada unidad vigente del workspace se conservan exactamente `keep_configs`
/// variantes, o todas si no hay tantas.
pub proof fn ley_cuantas_variantes_se_conservan(
    units: Seq<UnidadVista>,
    members: Map<Seq<char>, Set<Seq<char>>>,
    keep_configs: nat,
    i: int,
)
    requires
        0 <= i < units.len(),
        del_workspace(units[i], members),
    ensures
        variantes(units, i).finite(),
        variantes(units, i).intersect(conjunto_de_raices(units, members, keep_configs)).len() == if keep_configs
            <= variantes(units, i).len() {
            keep_configs
        } else {
            variantes(units, i).len()
        },
{
    let todas = variantes(units, i);
    let n = units.len() as int;
    vstd::set_lib::lemma_int_range(0, n);
    vstd::set_lib::lemma_len_subset(todas, vstd::set_lib::set_int_range(0, n));
    let raices = conjunto_de_raices(units, members, keep_configs);
    let quedan = todas.intersect(raices);
    vstd::set_lib::lemma_len_subset(quedan, todas);
    // No quedan más que `keep_configs`: cada una tiene un puesto distinto.
    let puesto = |j: int| delante(units, j).len() as int;
    let puestos = quedan.map(puesto);
    assert(vstd::relations::injective_on(puesto, quedan)) by {
        assert forall|a: int, b: int|
            quedan.contains(a) && quedan.contains(b) && #[trigger] puesto(a) == #[trigger] puesto(
                b,
            ) implies a == b by {
            if a != b {
                lemma_orden_de_variantes(units, a, b, b);
                if va_delante(units, a, b) {
                    lemma_delante_crece(units, a, b);
                } else {
                    lemma_delante_crece(units, b, a);
                }
            }
        }
    }
    vstd::set_lib::lemma_map_size(quedan, puestos, puesto);
    vstd::set_lib::lemma_int_range(0, keep_configs as int);
    vstd::set_lib::lemma_len_subset(
        puestos,
        vstd::set_lib::set_int_range(0, keep_configs as int),
    );
    // No quedan menos: la primera descartada tendría delante sólo a las que quedan.
    if quedan.len() < keep_configs && quedan.len() < todas.len() {
        let fuera = todas.difference(quedan);
        if fuera =~= Set::empty() {
            assert forall|k: int| todas.contains(k) implies quedan.contains(k) by {
                if !quedan.contains(k) {
                    assert(fuera.contains(k));
                }
            }
            assert(todas =~= quedan);
        }
        let primera = lemma_primera_de(units, fuera);
        assert forall|k: int| delante(units, primera).contains(k) implies quedan.contains(k) by {
            if !quedan.contains(k) {
                assert(fuera.contains(k));
                lemma_delante_crece(units, k, primera);
            }
        }
        vstd::set_lib::lemma_len_subset(delante(units, primera), quedan);
        assert(es_raiz(units, members, keep_configs, primera));
    }
}

/// De unas cuantas unidades, una que tiene delante tan pocas como cualquier otra.
proof fn lemma_primera_de(units: Seq<UnidadVista>, cuales: Set<int>) -> (r: int)
    requires
        cuales.finite(),
        cuales.len() > 0,
    ensures
        cuales.contains(r),
        forall|k: int|
            cuales.contains(k) ==> delante(units, r).len() <= #[trigger] delante(units, k).len(),
    decreases cuales.len(),
{
    let a = cuales.choose();
    let resto = cuales.remove(a);
    if resto.len() == 0 {
        assert(resto =~= Set::empty());
        assert forall|k: int| cuales.contains(k) implies delante(units, a).len()
            <= #[trigger] delante(units, k).len() by {
            if k != a {
                assert(resto.contains(k));
            }
        }
        a
    } else {
        let b = lemma_primera_de(units, resto);
        let r = if delante(units, a).len() <= delante(units, b).len() {
            a
        } else {
            b
        };
        assert forall|k: int| cuales.contains(k) implies delante(units, r).len()
            <= #[trigger] delante(units, k).len() by {
            if k != a {
                assert(resto.contains(k));
            }
        }
        r
    }
}

/// Posición, entre las unidades de todos los perfiles, de la primera del perfil `p`.
pub open spec fn primera_del_perfil(profiles: Seq<PerfilVista>, p: int) -> int {
    unidades_de(profiles.take(p)).len() as int
}

/// Las unidades de un perfil están seguidas entre las de todos.
pub proof fn lemma_unidades_del_perfil(profiles: Seq<PerfilVista>, p: int, i: int)
    requires
        0 <= p < profiles.len(),
        0 <= i < profiles[p].units.len(),
    ensures
        0 <= primera_del_perfil(profiles, p) + i < unidades_de(profiles).len(),
        unidades_de(profiles)[primera_del_perfil(profiles, p) + i] == profiles[p].units[i],
    decreases profiles.len(),
{
    let antes = profiles.drop_last();
    if p < profiles.len() - 1 {
        lemma_unidades_del_perfil(antes, p, i);
        assert(antes.take(p) =~= profiles.take(p));
    } else {
        assert(profiles.take(p) =~= antes);
    }
}

/// El grafo cruza de perfil: lo que una unidad viva de un perfil necesita de otro
/// perfil se conserva.
pub proof fn ley_el_grafo_cruza_de_perfil(
    profiles: Seq<PerfilVista>,
    members: Map<Seq<char>, Set<Seq<char>>>,
    keep_configs: nat,
    p: int,
    i: int,
    q: int,
    j: int,
    k: int,
)
    requires
        0 <= p < profiles.len(),
        0 <= i < profiles[p].units.len(),
        0 <= q < profiles.len(),
        0 <= j < profiles[q].units.len(),
        0 <= k < profiles[p].units[i].deps.len(),
        profiles[q].units[j].fp_hash == Some(profiles[p].units[i].deps[k].1),
        vivas(unidades_de(profiles), members, keep_configs).contains(
            primera_del_perfil(profiles, p) + i,
        ),
    ensures
        hashes_vivos(unidades_de(profiles), members, keep_configs).contains(
            profiles[q].units[j].filename_hash,
        ),
{
    let units = unidades_de(profiles);
    let a = primera_del_perfil(profiles, p) + i;
    let b = primera_del_perfil(profiles, q) + j;
    lemma_unidades_del_perfil(profiles, p, i);
    lemma_unidades_del_perfil(profiles, q, j);
    assert(units[a].deps[k].1 == profiles[p].units[i].deps[k].1);
    assert(depende(units, a, b));
    ley_lo_que_usa_lo_vivo_vive(units, members, keep_configs, a, b);
}

/// Normalizar sólo convierte guiones en guiones bajos.
pub proof fn ley_normalizar_solo_cambia_guiones(s: Seq<char>, i: int)
    ensures
        normalizado(s).len() == s.len(),
        0 <= i < s.len() && s[i] == '-' ==> normalizado(s)[i] == '_',
        0 <= i < s.len() && s[i] != '-' ==> normalizado(s)[i] == s[i],
{
}

/// Un stem es vigente si es el de un target declarado, solo o tras un tipo, se escriba
/// con guiones o con guiones bajos; y sólo entonces.
pub proof fn ley_que_stems_son_vigentes(
    tipo: Seq<char>,
    nombre: Seq<char>,
    targets: Set<Seq<char>>,
    stem: Seq<char>,
)
    ensures
        targets.contains(normalizado(nombre)) ==> {
            &&& vigente(nombre, targets)
            &&& vigente(tipo.push('-') + nombre, targets)
            &&& vigente(tipo.push('_') + nombre, targets)
        },
        vigente(stem, targets) ==> exists|t: Seq<char>|
            {
                &&& #[trigger] targets.contains(t)
                &&& {
                    ||| normalizado(stem) == t
                    ||| exists|antes: Seq<char>|
                        normalizado(stem) == #[trigger] (antes.push('_') + t)
                }
            },
{
    let t = normalizado(nombre);
    if targets.contains(t) {
        let antes = normalizado(tipo);
        let cola = seq!['_'] + t;
        assert(normalizado(tipo.push('-') + nombre) =~= antes + cola);
        assert(normalizado(tipo.push('_') + nombre) =~= antes + cola);
        texto::ley_empezar_y_terminar(antes, cola);
    }
    if vigente(stem, targets) {
        let n = normalizado(stem);
        let t = choose|t: Seq<char>| #[trigger]
            targets.contains(t) && nombra_target(normalizado(stem), t);
        if n != t {
            let antes = n.take(n.len() - t.len() - 1);
            assert(n =~= antes + (seq!['_'] + t));
            assert(n =~= antes.push('_') + t);
        }
        assert(targets.contains(t));
    }
}

/// Qué hace raíz a una unidad: su paquete está en el workspace, su stem es el de un
/// target que ese paquete declara, y no la descarta la poda. Sin podar, nada más.
pub proof fn ley_que_es_una_raiz(
    units: Seq<UnidadVista>,
    members: Map<Seq<char>, Set<Seq<char>>>,
    keep_configs: nat,
    i: int,
)
    ensures
        conjunto_de_raices(units, members, keep_configs).contains(i) <==> es_raiz(
            units,
            members,
            keep_configs,
            i,
        ),
        es_raiz(units, members, keep_configs, i) ==> 0 <= i < units.len() && members.contains_key(
            units[i].pkg,
        ) && vigente(units[i].stem, members[units[i].pkg]),
        0 <= i < units.len() && members.contains_key(units[i].pkg) && vigente(
            units[i].stem,
            members[units[i].pkg],
        ) && keep_configs >= units.len() ==> es_raiz(units, members, keep_configs, i),
{
    if 0 <= i < units.len() {
        lemma_delante_acotado(units, i);
    }
}

/// La poda conserva las más recientes: de dos variantes del mismo paquete y stem, la
/// que se queda no es anterior a la que se descarta. La que no tiene fecha sólo se
/// queda si la descartada tampoco la tiene, y a igual fecha se queda la que se leyó
/// antes.
pub proof fn ley_la_poda_conserva_las_de_fecha_mayor(
    units: Seq<UnidadVista>,
    members: Map<Seq<char>, Set<Seq<char>>>,
    keep_configs: nat,
    i: int,
    j: int,
)
    requires
        0 <= j < units.len(),
        es_raiz(units, members, keep_configs, i),
        !es_raiz(units, members, keep_configs, j),
        units[i].pkg == units[j].pkg,
        units[i].stem == units[j].stem,
    ensures
        match (units[i].invoked, units[j].invoked) {
            (Some(a), Some(b)) => {
                &&& a.segundos >= b.segundos
                &&& a.segundos == b.segundos ==> a.nanos >= b.nanos
            },
            (Some(_), None) => true,
            (None, b) => b is None,
        },
        units[i].invoked == units[j].invoked ==> i < j,
{
    ley_se_conservan_las_mas_recientes(units, members, keep_configs, i, j);
}

/// La poda deja justo las que se piden: de las variantes de un mismo paquete y stem
/// vigente se quedan `keep_configs`, o todas si no hay tantas.
pub proof fn ley_la_poda_deja_las_que_se_piden(
    units: Seq<UnidadVista>,
    members: Map<Seq<char>, Set<Seq<char>>>,
    keep_configs: nat,
    pkg: Seq<char>,
    stem: Seq<char>,
)
    requires
        members.contains_key(pkg),
        vigente(stem, members[pkg]),
    ensures
        ({
            let todas = Set::new(
                |j: int| 0 <= j < units.len() && units[j].pkg == pkg && units[j].stem == stem,
            );
            let quedan = Set::new(
                |j: int|
                    0 <= j < units.len() && units[j].pkg == pkg && units[j].stem == stem && es_raiz(
                        units,
                        members,
                        keep_configs,
                        j,
                    ),
            );
            &&& todas.finite()
            &&& keep_configs <= todas.len() ==> quedan.len() == keep_configs
            &&& keep_configs > todas.len() ==> quedan.len() == todas.len()
        }),
{
    let todas = Set::new(
        |j: int| 0 <= j < units.len() && units[j].pkg == pkg && units[j].stem == stem,
    );
    let quedan = Set::new(
        |j: int|
            0 <= j < units.len() && units[j].pkg == pkg && units[j].stem == stem && es_raiz(
                units,
                members,
                keep_configs,
                j,
            ),
    );
    if todas =~= Set::empty() {
        assert(quedan =~= Set::empty());
    } else {
        let i = choose|i: int| todas.contains(i);
        assert(todas =~= variantes(units, i));
        assert(quedan =~= variantes(units, i).intersect(
            conjunto_de_raices(units, members, keep_configs),
        ));
        ley_cuantas_variantes_se_conservan(units, members, keep_configs, i);
    }
}

/// Una unidad depende de otra justo cuando una de sus aristas lleva el hash de
/// fingerprint de la otra, sean de los perfiles y paquetes que sean.
pub proof fn ley_que_es_depender(units: Seq<UnidadVista>, i: int, j: int, k: int)
    ensures
        0 <= i < units.len() && 0 <= j < units.len() && 0 <= k < units[i].deps.len()
            && units[j].fp_hash == Some(units[i].deps[k].1) ==> depende(units, i, j),
        depende(units, i, j) ==> 0 <= i < units.len() && 0 <= j < units.len() && exists|k: int|
            0 <= k < units[i].deps.len() && Some((#[trigger] units[i].deps[k]).1)
                == units[j].fp_hash,
{
}

/// Los hashes que se conservan son los de las unidades vivas, todos y sólo esos.
pub proof fn ley_los_hashes_son_los_de_las_vivas(
    units: Seq<UnidadVista>,
    members: Map<Seq<char>, Set<Seq<char>>>,
    keep_configs: nat,
    hash: Seq<char>,
    i: int,
)
    ensures
        0 <= i < units.len() && vivas(units, members, keep_configs).contains(i) ==> hashes_vivos(
            units,
            members,
            keep_configs,
        ).contains(units[i].filename_hash),
        hashes_vivos(units, members, keep_configs).contains(hash) ==> exists|j: int|
            0 <= j < units.len() && vivas(units, members, keep_configs).contains(j) && (
            #[trigger] units[j]).filename_hash == hash,
{
    if 0 <= i < units.len() {
        assert(units[i].filename_hash == units[i].filename_hash);
    }
}

/// Cómo se cuentan las aristas: una por dependencia, y resuelta si alguna unidad tiene
/// su hash.
pub proof fn ley_como_se_cuentan_las_aristas(
    todas: Seq<UnidadVista>,
    units: Seq<UnidadVista>,
    u: UnidadVista,
    deps: Seq<(Seq<char>, u64)>,
    d: (Seq<char>, u64),
)
    ensures
        cuantas_aristas(Seq::empty()) == 0,
        cuantas_aristas(units.push(u)) == cuantas_aristas(units) + u.deps.len(),
        cuantas_resueltas(todas, Seq::empty()) == 0,
        cuantas_resueltas(todas, units.push(u)) == cuantas_resueltas(todas, units)
            + resueltas_de_una(todas, u.deps),
        resueltas_de_una(todas, Seq::empty()) == 0,
        (exists|j: int| 0 <= j < todas.len() && (#[trigger] todas[j]).fp_hash == Some(d.1))
            ==> resueltas_de_una(todas, deps.push(d)) == resueltas_de_una(todas, deps) + 1,
        !(exists|j: int| 0 <= j < todas.len() && (#[trigger] todas[j]).fp_hash == Some(d.1))
            ==> resueltas_de_una(todas, deps.push(d)) == resueltas_de_una(todas, deps),
{
    assert(units.push(u).drop_last() =~= units);
    assert(deps.push(d).drop_last() =~= deps);
}

/// La última actividad es la de alguna unidad, y ninguna es posterior.
pub proof fn ley_la_ultima_actividad_es_la_mayor(
    units: Seq<UnidadVista>,
    t: Option<Instante>,
    i: int,
)
    requires
        es_ultima_actividad(units, t),
    ensures
        0 <= i < units.len() && units[i].invoked is Some ==> {
            let a = units[i].invoked->0;
            &&& t is Some
            &&& a.segundos <= (t->0).segundos
            &&& a.segundos == (t->0).segundos ==> a.nanos <= (t->0).nanos
        },
        t is Some ==> exists|j: int| 0 <= j < units.len() && (#[trigger] units[j]).invoked == t,
{
}

/// Las unidades de todos los perfiles son las de cada uno, por orden.
pub proof fn ley_las_unidades_son_las_de_los_perfiles(
    profiles: Seq<PerfilVista>,
    p: PerfilVista,
)
    ensures
        unidades_de(Seq::empty()) == Seq::<UnidadVista>::empty(),
        unidades_de(profiles.push(p)) == unidades_de(profiles) + p.units,
{
    assert(profiles.push(p).drop_last() =~= profiles);
}

/// Unos perfiles se ven uno a uno, en su orden.
pub proof fn ley_los_perfiles_se_ven_uno_a_uno(profiles: Seq<Profile>, i: int)
    ensures
        perfiles_vistos(profiles).len() == profiles.len(),
        0 <= i < profiles.len() ==> perfiles_vistos(profiles)[i] == profiles[i]@,
{
}

} // verus!
