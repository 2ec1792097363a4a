//! Los perfiles compilados que hay bajo un `target/`.

use crate::fingerprint::{self, DirDeUnidad, DirVisto, PerfilVista, Profile};
use crate::mark;
use crate::orden;
use crate::ruta::{self, Ruta};
use crate::sweep::TRASH_DIR;
use crate::texto;
use vstd::prelude::*;
use vstd::string::*;
use vstd::utf8::*;

verus! {

/// Un elemento de un directorio bajo `target/`, tal como se leyó.
pub struct Nodo {
    pub nombre: Vec<u8>,
    pub es_dir: bool,
    /// Lo que contiene, si [`desciende`] dice que hay que bajar.
    pub hijos: Vec<Nodo>,
    /// Lo que contiene, si es un `.fingerprint/`.
    pub unidades: Vec<DirDeUnidad>,
}

/// Cuántos niveles se baja desde `target/`.
pub const NIVELES: usize = 3;

/// ¿Es el nombre de un directorio en el que no tiene sentido buscar perfiles?
pub open spec fn sin_perfiles(nombre: Seq<u8>) -> bool {
    ||| texto::es_nombre(nombre, TRASH_DIR@)
    ||| texto::es_nombre(nombre, "deps"@)
    ||| texto::es_nombre(nombre, "build"@)
    ||| texto::es_nombre(nombre, "incremental"@)
    ||| texto::es_nombre(nombre, ".rustc_info.json"@)
}

/// ¿Es el nombre del directorio donde Cargo guarda los fingerprints?
pub open spec fn es_huellas(nombre: Seq<u8>) -> bool {
    texto::es_nombre(nombre, ".fingerprint"@)
}

/// ¿Hay que buscar perfiles dentro de un directorio con ese nombre?
///
/// No se baja dentro de `.fingerprint/`, ni de la papelera: dentro de ella hay
/// perfiles enteros ya barridos, y tratarlos como perfiles vivos inflaría el
/// informe y los volvería a planificar para barrer.
pub fn desciende(nombre: &Vec<u8>) -> (r: bool)
    ensures
        r == (!es_huellas(nombre@) && !sin_perfiles(nombre@)),
{
    !(texto::se_llama(nombre, ".fingerprint") || texto::se_llama(nombre, TRASH_DIR)
        || texto::se_llama(nombre, "deps") || texto::se_llama(nombre, "build") || texto::se_llama(
        nombre,
        "incremental",
    ) || texto::se_llama(nombre, ".rustc_info.json"))
}

/// Un directorio `.fingerprint/`: el que lo contiene, si hay ahí un `deps/`, y lo
/// que se leyó de él.
pub struct Hallazgo<'a> {
    pub dir: Ruta,
    pub con_deps: bool,
    pub unidades: &'a Vec<DirDeUnidad>,
}

/// Lo que dice un hallazgo, como valor matemático.
#[verifier::ext_equal]
pub struct HallazgoVisto {
    pub dir: Seq<Seq<u8>>,
    pub con_deps: bool,
    pub unidades: Seq<DirVisto>,
}

impl<'a> View for Hallazgo<'a> {
    type V = HallazgoVisto;

    open spec fn view(&self) -> HallazgoVisto {
        HallazgoVisto {
            dir: self.dir@,
            con_deps: self.con_deps,
            unidades: fingerprint::dirs_vistos(self.unidades@),
        }
    }
}

/// Las vistas de unos hallazgos.
pub open spec fn hallazgos_vistos(hallazgos: Seq<Hallazgo>) -> Seq<HallazgoVisto> {
    hallazgos.map_values(|h: Hallazgo| h@)
}

/// ¿Hay entre los elementos un directorio `deps/`?
pub open spec fn hay_deps(hermanos: Seq<Nodo>) -> bool {
    exists|i: int|
        0 <= i < hermanos.len() && (#[trigger] hermanos[i]).es_dir && texto::es_nombre(
            hermanos[i].nombre@,
            "deps"@,
        )
}

/// Los `.fingerprint/` que hay en los `n` primeros elementos de un directorio, y
/// debajo de ellos hasta [`NIVELES`] niveles bajo `target/`.
pub open spec fn hallazgos(base: Seq<Seq<u8>>, hermanos: Seq<Nodo>, n: nat, depth: nat) -> Seq<
    HallazgoVisto,
>
    decreases NIVELES + 1 - depth, n,
{
    if depth > NIVELES || n == 0 {
        Seq::empty()
    } else {
        let x = hermanos[n - 1];
        let previos = hallazgos(base, hermanos, (n - 1) as nat, depth);
        if !x.es_dir {
            previos
        } else if es_huellas(x.nombre@) {
            previos.push(
                HallazgoVisto {
                    dir: base,
                    con_deps: hay_deps(hermanos),
                    unidades: fingerprint::dirs_vistos(x.unidades@),
                },
            )
        } else if sin_perfiles(x.nombre@) {
            previos
        } else {
            previos + hallazgos(
                base.push(x.nombre@),
                x.hijos@,
                x.hijos@.len(),
                depth + 1,
            )
        }
    }
}

/// ¿Se puede bajar siguiendo unos pasos? Cada paso es la posición de un elemento, que
/// tiene que ser un directorio en el que se buscan perfiles.
pub open spec fn se_llega(hijos: Seq<Nodo>, pasos: Seq<int>) -> bool
    decreases pasos.len(),
{
    pasos.len() > 0 ==> {
        &&& 0 <= pasos[0] < hijos.len()
        &&& hijos[pasos[0]].es_dir
        &&& !es_huellas(hijos[pasos[0]].nombre@)
        &&& !sin_perfiles(hijos[pasos[0]].nombre@)
        &&& se_llega(hijos[pasos[0]].hijos@, pasos.drop_first())
    }
}

/// Lo que contiene el directorio al que llevan unos pasos.
pub open spec fn contenido_en(hijos: Seq<Nodo>, pasos: Seq<int>) -> Seq<Nodo>
    decreases pasos.len(),
{
    if pasos.len() == 0 {
        hijos
    } else {
        contenido_en(hijos[pasos[0]].hijos@, pasos.drop_first())
    }
}

/// La ruta del directorio al que llevan unos pasos.
pub open spec fn ruta_en(base: Seq<Seq<u8>>, hijos: Seq<Nodo>, pasos: Seq<int>) -> Seq<Seq<u8>>
    decreases pasos.len(),
{
    if pasos.len() == 0 {
        base
    } else {
        ruta_en(
            base.push(hijos[pasos[0]].nombre@),
            hijos[pasos[0]].hijos@,
            pasos.drop_first(),
        )
    }
}

/// ¿Es `h` el hallazgo del `.fingerprint/` que está en la posición `k` del directorio
/// al que llevan unos pasos?
pub open spec fn es_hallazgo_en(
    base: Seq<Seq<u8>>,
    hijos: Seq<Nodo>,
    pasos: Seq<int>,
    k: int,
    h: HallazgoVisto,
) -> bool {
    let dentro = contenido_en(hijos, pasos);
    &&& se_llega(hijos, pasos)
    &&& 0 <= k < dentro.len()
    &&& dentro[k].es_dir
    &&& es_huellas(dentro[k].nombre@)
    &&& h == (HallazgoVisto {
        dir: ruta_en(base, hijos, pasos),
        con_deps: hay_deps(dentro),
        unidades: fingerprint::dirs_vistos(dentro[k].unidades@),
    })
}

/// ¿Es `p` el perfil de un directorio al que se llega desde `target/` en no más de
/// [`NIVELES`] pasos, y que contiene un `.fingerprint/` y un `deps/`?
pub open spec fn es_perfil_en(
    target: Seq<Seq<u8>>,
    hijos: Seq<Nodo>,
    pasos: Seq<int>,
    k: int,
    p: PerfilVista,
) -> bool {
    let dentro = contenido_en(hijos, pasos);
    let dir = ruta_en(target, hijos, pasos);
    &&& se_llega(hijos, pasos)
    &&& pasos.len() <= NIVELES
    &&& 0 <= k < dentro.len()
    &&& dentro[k].es_dir
    &&& es_huellas(dentro[k].nombre@)
    &&& hay_deps(dentro)
    &&& p == (PerfilVista {
        label: etiqueta(target, dir),
        dir,
        fingerprint_dir: dir.push(encode_utf8(".fingerprint"@)),
        deps_dir: dir.push(encode_utf8("deps"@)),
        units: fingerprint::unidades_leidas(fingerprint::dirs_vistos(dentro[k].unidades@)),
    })
}

/// ¿Es `p` uno de los perfiles que hay bajo `target/`?
pub open spec fn hay_perfil(target: Seq<Seq<u8>>, hijos: Seq<Nodo>, p: PerfilVista) -> bool {
    exists|pasos: Seq<int>, k: int| #[trigger] es_perfil_en(target, hijos, pasos, k, p)
}

/// La etiqueta de un perfil: su ruta relativa a `target/`.
pub open spec fn etiqueta(target: Seq<Seq<u8>>, dir: Seq<Seq<u8>>) -> Seq<char> {
    if ruta::cuelga_de(dir, target) {
        texto::mostrado(ruta::con_barras(dir.skip(target.len() as int)))
    } else {
        texto::mostrado(seq![47u8] + ruta::con_barras(dir))
    }
}

/// El perfil que corresponde a un hallazgo.
pub open spec fn perfil_de(target: Seq<Seq<u8>>, h: HallazgoVisto) -> Option<PerfilVista> {
    if h.con_deps {
        Some(
            PerfilVista {
                label: etiqueta(target, h.dir),
                dir: h.dir,
                fingerprint_dir: h.dir.push(encode_utf8(".fingerprint"@)),
                deps_dir: h.dir.push(encode_utf8("deps"@)),
                units: fingerprint::unidades_leidas(h.unidades),
            },
        )
    } else {
        None
    }
}

/// Los perfiles que hay bajo un `target/`, en el orden en que aparecen.
pub open spec fn perfiles_de(target: Seq<Seq<u8>>, hijos: Seq<Nodo>) -> Seq<PerfilVista> {
    hallazgos(target, hijos, hijos.len(), 0).filter_map(|h: HallazgoVisto| perfil_de(target, h))
}

fn tiene_deps(hermanos: &Vec<Nodo>) -> (r: bool)
    ensures
        r == hay_deps(hermanos@),
{
    for i in 0..hermanos.len()
        invariant
            forall|j: int|
                0 <= j < i ==> !((#[trigger] hermanos@[j]).es_dir && texto::es_nombre(
                    hermanos@[j].nombre@,
                    "deps"@,
                )),
    {
        if hermanos[i].es_dir && texto::se_llama(&hermanos[i].nombre, "deps") {
            assert(hermanos@[i as int].es_dir);
            return true;
        }
    }
    false
}

/// Recorre `target/` en busca de directorios `.fingerprint`, sin bajar dentro de ellos.
pub fn collect_fingerprint_dirs<'a>(
    base: &Ruta,
    hijos: &'a Vec<Nodo>,
    depth: usize,
    out: &mut Vec<Hallazgo<'a>>,
)
    ensures
        hallazgos_vistos(final(out)@) == hallazgos_vistos(old(out)@) + hallazgos(
            base@,
            hijos@,
            hijos@.len(),
            depth as nat,
        ),
    decreases NIVELES + 1 - depth,
{
    let ghost previos = hallazgos_vistos(out@);
    assert(previos + Seq::<HallazgoVisto>::empty() =~= previos);
    if depth > NIVELES {
        return ;
    }
    let con_deps = tiene_deps(hijos);
    for i in 0..hijos.len()
        invariant
            depth <= NIVELES,
            con_deps == hay_deps(hijos@),
            hallazgos_vistos(out@) == previos + hallazgos(
                base@,
                hijos@,
                i as nat,
                depth as nat,
            ),
    {
        let hijo = &hijos[i];
        let ghost antes = out@;
        let ghost hechos = hallazgos(base@, hijos@, i as nat, depth as nat);
        if hijo.es_dir {
            if texto::se_llama(&hijo.nombre, ".fingerprint") {
                let h = Hallazgo { dir: base.clone(), con_deps, unidades: &hijo.unidades };
                let ghost vista = h@;
                out.push(h);
                assert(hallazgos_vistos(out@) =~= hallazgos_vistos(antes).push(vista));
                assert((previos + hechos).push(vista) =~= previos + hechos.push(vista));
            } else if desciende(&hijo.nombre) {
                collect_fingerprint_dirs(&base.hijo(&hijo.nombre), &hijo.hijos, depth + 1, out);
                let ghost debajo = hallazgos(
                    base@.push(hijo.nombre@),
                    hijo.hijos@,
                    hijo.hijos@.len(),
                    (depth + 1) as nat,
                );
                assert((previos + hechos) + debajo =~= previos + (hechos + debajo));
            }
        }
    }
}

/// La ruta de un directorio relativa a `target/`, para mostrarla.
pub(crate) fn etiquetar(target: &Ruta, dir: &Ruta) -> (r: String)
    ensures
        r@ == etiqueta(target@, dir@),
{
    match dir.strip_prefix(target) {
        Some(resto) => texto::mostrar(&resto.relativa()),
        None => {
            let mut bytes: Vec<u8> = Vec::new();
            bytes.push(47u8);
            let mut resto = dir.relativa();
            bytes.append(&mut resto);
            assert(bytes@ =~= seq![47u8] + ruta::con_barras(dir@));
            texto::mostrar(&bytes)
        },
    }
}

/// ¿Están los perfiles ordenados por su etiqueta?
pub open spec fn ordenados_por_etiqueta(perfiles: Seq<PerfilVista>) -> bool {
    forall|i: int, j: int|
        0 <= i < j < perfiles.len() ==> !orden::texto_antes(
            (#[trigger] perfiles[j]).label,
            (#[trigger] perfiles[i]).label,
        )
}

/// Los perfiles con esa etiqueta, en orden.
pub open spec fn con_etiqueta(perfiles: Seq<PerfilVista>, label: Seq<char>) -> Seq<PerfilVista> {
    perfiles.filter(|p: PerfilVista| p.label == label)
}

/// Inserta un perfil detrás de los que tienen una etiqueta que no es mayor.
fn insertar_perfil(perfiles: &mut Vec<Profile>, nuevo: Profile)
    requires
        ordenados_por_etiqueta(mark::perfiles_vistos(old(perfiles)@)),
    ensures
        ordenados_por_etiqueta(mark::perfiles_vistos(final(perfiles)@)),
        forall|label: Seq<char>| #[trigger]
            con_etiqueta(mark::perfiles_vistos(final(perfiles)@), label) == con_etiqueta(
                mark::perfiles_vistos(old(perfiles)@).push(nuevo@),
                label,
            ),
{
    let ghost vistas = mark::perfiles_vistos(perfiles@);
    let ghost n = nuevo@;
    let mut k: usize = perfiles.len();
    while k > 0 && orden::va_antes(nuevo.label.as_str(), perfiles[k - 1].label.as_str())
        invariant
            k <= perfiles@.len(),
            vistas == mark::perfiles_vistos(perfiles@),
            n == nuevo@,
            forall|j: int|
                k <= j < vistas.len() ==> orden::texto_antes(n.label, (#[trigger] vistas[j]).label),
        decreases k,
    {
        k -= 1;
        assert(vistas[k as int] == perfiles@[k as int]@);
    }
    assert(k > 0 ==> vistas[k - 1] == perfiles@[k - 1]@);
    perfiles.insert(k, nuevo);
    let ghost nuevas = vistas.insert(k as int, n);
    assert(mark::perfiles_vistos(perfiles@) =~= nuevas);
    proof {
        assert forall|i: int, j: int| 0 <= i < j < nuevas.len() implies !orden::texto_antes(
            (#[trigger] nuevas[j]).label,
            (#[trigger] nuevas[i]).label,
        ) by {
            let a = if i < k {
                i
            } else {
                i - 1
            };
            let b = if j < k {
                j
            } else {
                j - 1
            };
            if i == k {
                assert(nuevas[j] == vistas[b]);
                orden::lemma_orden_de_textos(n.label, vistas[b].label, n.label);
            } else if j == k {
                assert(nuevas[i] == vistas[a]);
                if orden::texto_antes(n.label, vistas[a].label) {
                    orden::lemma_orden_de_textos(n.label, vistas[a].label, vistas[k - 1].label);
                    if a < k - 1 {
                        orden::lemma_orden_de_textos(vistas[a].label, vistas[k - 1].label, n.label);
                    }
                }
            } else {
                assert(nuevas[i] == vistas[a] && nuevas[j] == vistas[b]);
            }
        }
        assert forall|label: Seq<char>| #[trigger] con_etiqueta(nuevas, label) == con_etiqueta(
            vistas.push(n),
            label,
        ) by {
            let delante = vistas.take(k as int);
            let detras = vistas.skip(k as int);
            let cual = |p: PerfilVista| p.label == label;
            assert(nuevas =~= delante + (seq![n] + detras));
            assert(vistas.push(n) =~= delante + (detras + seq![n]));
            Seq::filter_distributes_over_add(delante, seq![n] + detras, cual);
            Seq::filter_distributes_over_add(delante, detras + seq![n], cual);
            Seq::filter_distributes_over_add(seq![n], detras, cual);
            Seq::filter_distributes_over_add(detras, seq![n], cual);
            if label == n.label {
                assert forall|i: int| 0 <= i < detras.len() implies !cual(#[trigger] detras[i]) by {
                    assert(detras[i] == vistas[k + i]);
                    orden::lemma_orden_de_textos(n.label, n.label, n.label);
                }
                lemma_ninguno(detras, cual);
            } else {
                lemma_ninguno(seq![n], cual);
            }
            assert(seq![n].filter(cual) + detras.filter(cual) =~= detras.filter(cual)
                + seq![n].filter(cual));
        }
    }
}

/// Si ninguno cumple, filtrar no deja nada.
proof fn lemma_ninguno(s: Seq<PerfilVista>, cual: spec_fn(PerfilVista) -> bool)
    requires
        forall|i: int| 0 <= i < s.len() ==> !cual(#[trigger] s[i]),
    ensures
        s.filter(cual) == Seq::<PerfilVista>::empty(),
    decreases s.len(),
{
    reveal(Seq::filter);
    if s.len() > 0 {
        assert(!cual(s[s.len() - 1]));
        lemma_ninguno(s.drop_last(), cual);
    }
}

/// Localiza todos los perfiles compilados bajo un `target/`.
///
/// Busca directorios `.fingerprint` que tengan un `deps/` hermano, lo que cubre
/// tanto `target/debug/` como `target/<triple>/<profile>/`. Los devuelve por orden
/// de etiqueta; dos con la misma, en el orden en que aparecen.
pub fn discover_profiles(target: &Ruta, hijos: &Vec<Nodo>) -> (r: Vec<Profile>)
    ensures
        ordenados_por_etiqueta(mark::perfiles_vistos(r@)),
        forall|label: Seq<char>| #[trigger]
            con_etiqueta(mark::perfiles_vistos(r@), label) == con_etiqueta(
                perfiles_de(target@, hijos@),
                label,
            ),
        forall|p: PerfilVista| #[trigger]
            mark::perfiles_vistos(r@).contains(p) <==> hay_perfil(target@, hijos@, p),
{
    let mut found: Vec<Hallazgo> = Vec::new();
    assert(hallazgos_vistos(found@) =~= Seq::<HallazgoVisto>::empty());
    collect_fingerprint_dirs(target, hijos, 0, &mut found);
    let ghost vistos = hallazgos(target@, hijos@, hijos@.len(), 0);
    assert(hallazgos_vistos(found@) =~= vistos);
    let ghost mut hechos: Seq<PerfilVista> = Seq::empty();
    let mut profiles: Vec<Profile> = Vec::new();
    assert(mark::perfiles_vistos(profiles@) =~= Seq::<PerfilVista>::empty());
    for i in 0..found.len()
        invariant
            vistos == hallazgos_vistos(found@),
            hechos == vistos.take(i as int).filter_map(|h: HallazgoVisto| perfil_de(target@, h)),
            ordenados_por_etiqueta(mark::perfiles_vistos(profiles@)),
            forall|label: Seq<char>| #[trigger]
                con_etiqueta(mark::perfiles_vistos(profiles@), label) == con_etiqueta(
                    hechos,
                    label,
                ),
    {
        let h = &found[i];
        assert(vistos.take(i + 1).drop_last() =~= vistos.take(i as int));
        assert(vistos.take(i + 1).last() == h@);
        let ghost antes = mark::perfiles_vistos(profiles@);
        if h.con_deps {
            let p = Profile {
                label: etiquetar(target, &h.dir),
                dir: h.dir.clone(),
                fingerprint_dir: h.dir.join(".fingerprint"),
                deps_dir: h.dir.join("deps"),
                units: fingerprint::read_units(h.unidades),
            };
            let ghost vista = p@;
            assert(perfil_de(target@, h@) == Some(vista));
            insertar_perfil(&mut profiles, p);
            proof {
                assert forall|label: Seq<char>| #[trigger]
                    con_etiqueta(mark::perfiles_vistos(profiles@), label) == con_etiqueta(
                        hechos + seq![vista],
                        label,
                    ) by {
                    let cual = |p: PerfilVista| p.label == label;
                    assert(con_etiqueta(antes, label) == con_etiqueta(hechos, label));
                    assert(antes.push(vista) =~= antes + seq![vista]);
                    Seq::filter_distributes_over_add(antes, seq![vista], cual);
                    Seq::filter_distributes_over_add(hechos, seq![vista], cual);
                }
                hechos = hechos + seq![vista];
            }
        }
    }
    assert(vistos.take(vistos.len() as int) =~= vistos);
    proof {
        let todos = mark::perfiles_vistos(profiles@);
        assert forall|p: PerfilVista| #[trigger] todos.contains(p) <==> hay_perfil(
            target@,
            hijos@,
            p,
        ) by {
            lemma_mismos_perfiles(todos, hechos, p);
            ley_se_hallan_todos_los_perfiles(target@, hijos@, p);
        }
    }
    profiles
}

/// Si con cada etiqueta están los mismos perfiles, son los mismos.
proof fn lemma_mismos_perfiles(a: Seq<PerfilVista>, b: Seq<PerfilVista>, p: PerfilVista)
    requires
        forall|label: Seq<char>| #[trigger] con_etiqueta(a, label) == con_etiqueta(b, label),
    ensures
        a.contains(p) <==> b.contains(p),
{
    let cual = |q: PerfilVista| q.label == p.label;
    assert(con_etiqueta(a, p.label) == con_etiqueta(b, p.label));
    if a.contains(p) {
        let i = choose|i: int| 0 <= i < a.len() && a[i] == p;
        a.lemma_filter_contains(cual, i);
        b.lemma_filter_contains_rev(cual, p);
    }
    if b.contains(p) {
        let i = choose|i: int| 0 <= i < b.len() && b[i] == p;
        b.lemma_filter_contains(cual, i);
        a.lemma_filter_contains_rev(cual, p);
    }
}

/// Por dónde empieza el camino hasta un hallazgo: el primer paso o, si no hay
/// ninguno, el propio `.fingerprint/`.
spec fn primero(pasos: Seq<int>, k: int) -> int {
    if pasos.len() == 0 {
        k
    } else {
        pasos[0]
    }
}

/// Todo `.fingerprint/` al que se llega se halla.
proof fn lemma_se_halla(
    base: Seq<Seq<u8>>,
    hijos: Seq<Nodo>,
    n: nat,
    depth: nat,
    pasos: Seq<int>,
    k: int,
    h: HallazgoVisto,
)
    requires
        es_hallazgo_en(base, hijos, pasos, k, h),
        pasos.len() + depth <= NIVELES,
        0 <= primero(pasos, k) < n <= hijos.len(),
    ensures
        hallazgos(base, hijos, n, depth).contains(h),
    decreases NIVELES + 1 - depth, n,
{
    let x = hijos[n - 1];
    let todos = hallazgos(base, hijos, n, depth);
    let previos = hallazgos(base, hijos, (n - 1) as nat, depth);
    if primero(pasos, k) < n - 1 {
        lemma_se_halla(base, hijos, (n - 1) as nat, depth, pasos, k, h);
        let i = choose|i: int| 0 <= i < previos.len() && previos[i] == h;
        assert(todos[i] == h);
    } else if pasos.len() == 0 {
        assert(todos[previos.len() as int] == h);
    } else {
        let path = base.push(x.nombre@);
        let debajo = hallazgos(path, x.hijos@, x.hijos@.len(), depth + 1);
        let resto = pasos.drop_first();
        assert(se_llega(x.hijos@, resto));
        assert(resto.len() > 0 ==> 0 <= resto[0] < x.hijos@.len());
        assert(contenido_en(hijos, pasos) == contenido_en(x.hijos@, resto));
        assert(resto.len() == 0 ==> contenido_en(x.hijos@, resto) == x.hijos@);
        lemma_se_halla(path, x.hijos@, x.hijos@.len(), depth + 1, resto, k, h);
        let i = choose|i: int| 0 <= i < debajo.len() && debajo[i] == h;
        assert(todos[previos.len() + i] == h);
    }
}

/// A todo lo que se halla se llega por algún camino.
proof fn lemma_se_llega_a_lo_hallado(
    base: Seq<Seq<u8>>,
    hijos: Seq<Nodo>,
    n: nat,
    depth: nat,
    i: int,
) -> (camino: (Seq<int>, int))
    requires
        n <= hijos.len(),
        0 <= i < hallazgos(base, hijos, n, depth).len(),
    ensures
        es_hallazgo_en(base, hijos, camino.0, camino.1, hallazgos(base, hijos, n, depth)[i]),
        camino.0.len() + depth <= NIVELES,
    decreases NIVELES + 1 - depth, n,
{
    let x = hijos[n - 1];
    let previos = hallazgos(base, hijos, (n - 1) as nat, depth);
    if i < previos.len() {
        lemma_se_llega_a_lo_hallado(base, hijos, (n - 1) as nat, depth, i)
    } else if es_huellas(x.nombre@) {
        (Seq::empty(), n - 1)
    } else {
        let path = base.push(x.nombre@);
        let (resto, k) = lemma_se_llega_a_lo_hallado(
            path,
            x.hijos@,
            x.hijos@.len(),
            depth + 1,
            i - previos.len(),
        );
        let pasos = seq![n - 1] + resto;
        assert(pasos.drop_first() =~= resto);
        (pasos, k)
    }
}

/// Se hallan todos los perfiles y nada más: un directorio es un perfil si y sólo si
/// contiene un `.fingerprint/` y un `deps/`, y se llega a él desde `target/` en no
/// más de [`NIVELES`] pasos sin pasar por ningún nombre excluido.
pub proof fn ley_se_hallan_todos_los_perfiles(
    target: Seq<Seq<u8>>,
    hijos: Seq<Nodo>,
    p: PerfilVista,
)
    ensures
        perfiles_de(target, hijos).contains(p) <==> hay_perfil(target, hijos, p),
{
    let todos = hallazgos(target, hijos, hijos.len(), 0);
    let f = |h: HallazgoVisto| perfil_de(target, h);
    if perfiles_de(target, hijos).contains(p) {
        todos.lemma_filter_map_contains(f, p);
        let h = choose|h: HallazgoVisto| #[trigger] todos.contains(h) && f(h) == Some(p);
        let i = choose|i: int| 0 <= i < todos.len() && todos[i] == h;
        let (pasos, k) = lemma_se_llega_a_lo_hallado(target, hijos, hijos.len(), 0, i);
        assert(es_perfil_en(target, hijos, pasos, k, p));
    }
    if hay_perfil(target, hijos, p) {
        let (pasos, k) = choose|pasos: Seq<int>, k: int| #[trigger]
            es_perfil_en(target, hijos, pasos, k, p);
        let dentro = contenido_en(hijos, pasos);
        let h = HallazgoVisto {
            dir: ruta_en(target, hijos, pasos),
            con_deps: hay_deps(dentro),
            unidades: fingerprint::dirs_vistos(dentro[k].unidades@),
        };
        lemma_se_halla(target, hijos, hijos.len(), 0, pasos, k, h);
        let i = choose|i: int| 0 <= i < todos.len() && todos[i] == h;
        lemma_no_se_pierde(todos, f, i, p);
    }
}

/// Lo que sale de un elemento está entre lo que sale de todos.
proof fn lemma_no_se_pierde(
    todos: Seq<HallazgoVisto>,
    f: spec_fn(HallazgoVisto) -> Option<PerfilVista>,
    i: int,
    p: PerfilVista,
)
    requires
        0 <= i < todos.len(),
        f(todos[i]) == Some(p),
    ensures
        todos.filter_map(f).contains(p),
    decreases todos.len(),
{
    let antes = todos.drop_last();
    if i < antes.len() {
        lemma_no_se_pierde(antes, f, i, p);
        let k = choose|k: int| 0 <= k < antes.filter_map(f).len() && antes.filter_map(f)[k] == p;
        assert(todos.filter_map(f)[k] == p);
    } else {
        let previos = antes.filter_map(f);
        assert(todos.filter_map(f)[previos.len() as int] == p);
    }
}

/// ¿Es la ruta de un directorio al que se llega sin pasar por la papelera ni por
/// las zonas de otro perfil?
pub open spec fn bien_hallado(dir: Seq<Seq<u8>>, base: Seq<Seq<u8>>, niveles: int) -> bool {
    &&& ruta::cuelga_de(dir, base)
    &&& dir.len() <= base.len() + niveles
    &&& forall|k: int|
        base.len() <= k < dir.len() ==> !sin_perfiles(#[trigger] dir[k]) && !es_huellas(dir[k])
}

proof fn lemma_bien_hallados(
    base: Seq<Seq<u8>>,
    hermanos: Seq<Nodo>,
    n: nat,
    depth: nat,
    i: int,
)
    requires
        0 <= i < hallazgos(base, hermanos, n, depth).len(),
    ensures
        bien_hallado(hallazgos(base, hermanos, n, depth)[i].dir, base, NIVELES - depth),
    decreases NIVELES + 1 - depth, n,
{
    let x = hermanos[n - 1];
    let previos = hallazgos(base, hermanos, (n - 1) as nat, depth);
    if i < previos.len() {
        lemma_bien_hallados(base, hermanos, (n - 1) as nat, depth, i);
    } else if es_huellas(x.nombre@) {
        assert(base.take(base.len() as int) =~= base);
    } else {
        let path = base.push(x.nombre@);
        let debajo = hallazgos(path, x.hijos@, x.hijos@.len(), depth + 1);
        let dir = debajo[i - previos.len()].dir;
        lemma_bien_hallados(path, x.hijos@, x.hijos@.len(), depth + 1, i - previos.len());
        assert(dir.take(path.len() as int)[base.len() as int] == x.nombre@);
        assert(dir.take(base.len() as int) =~= base) by {
            assert(dir.take(path.len() as int).take(base.len() as int) =~= dir.take(
                base.len() as int,
            ));
            assert(path.take(base.len() as int) =~= base);
        }
        assert forall|k: int| base.len() <= k < dir.len() implies !sin_perfiles(#[trigger] dir[k])
            && !es_huellas(dir[k]) by {
            if k == base.len() {
                assert(dir[k] == x.nombre@);
            }
        }
    }
}

/// Todo perfil cuelga de `target/` a no más de [`NIVELES`] niveles y fuera de la
/// papelera: lo ya barrido no se toma por un perfil vivo ni se vuelve a planificar.
pub proof fn ley_la_papelera_no_tiene_perfiles(
    target: Seq<Seq<u8>>,
    hijos: Seq<Nodo>,
    p: PerfilVista,
)
    requires
        perfiles_de(target, hijos).contains(p),
    ensures
        bien_hallado(p.dir, target, NIVELES as int),
        !p.dir.skip(target.len() as int).contains(encode_utf8(TRASH_DIR@)),
        p.deps_dir == p.dir.push(encode_utf8("deps"@)),
        p.label == etiqueta(target, p.dir),
{
    let todos = hallazgos(target, hijos, hijos.len(), 0);
    let f = |h: HallazgoVisto| perfil_de(target, h);
    todos.lemma_filter_map_contains(f, p);
    let h = choose|h: HallazgoVisto| #[trigger] todos.contains(h) && f(h) == Some(p);
    let i = choose|i: int| 0 <= i < todos.len() && todos[i] == h;
    lemma_bien_hallados(target, hijos, hijos.len(), 0, i);
    let resto = p.dir.skip(target.len() as int);
    encode_utf8_valid_utf8(TRASH_DIR@);
    encode_utf8_decode_utf8(TRASH_DIR@);
    if resto.contains(encode_utf8(TRASH_DIR@)) {
        let k = choose|k: int| 0 <= k < resto.len() && resto[k] == encode_utf8(TRASH_DIR@);
        assert(sin_perfiles(p.dir[target.len() + k]));
    }
}

/// La etiqueta de un perfil es su ruta relativa a `target/`, con barras: la de
/// `target/debug` es `debug`.
pub proof fn ley_la_etiqueta_es_la_ruta_relativa(target: Seq<Seq<u8>>, nombres: Seq<Seq<char>>)
    ensures
        etiqueta(target, target + ruta::codificados(nombres)) == texto::unidos(nombres, "/"@),
{
    let dir = target + ruta::codificados(nombres);
    let escrita = texto::unidos(nombres, "/"@);
    assert(dir.take(target.len() as int) =~= target);
    assert(dir.skip(target.len() as int) =~= ruta::codificados(nombres));
    ruta::lemma_con_barras_de_textos(nombres);
    encode_utf8_valid_utf8(escrita);
    encode_utf8_decode_utf8(escrita);
}

/// En qué directorios se buscan perfiles: en todos, menos en `.fingerprint/`, la
/// papelera, `deps/`, `build/`, `incremental/` y `.rustc_info.json`.
pub proof fn ley_donde_se_buscan_perfiles(nombre: Seq<u8>)
    ensures
        es_huellas(nombre) <==> nombre == encode_utf8(".fingerprint"@),
        sin_perfiles(nombre) <==> {
            ||| nombre == encode_utf8(".reap-trash"@)
            ||| nombre == encode_utf8("deps"@)
            ||| nombre == encode_utf8("build"@)
            ||| nombre == encode_utf8("incremental"@)
            ||| nombre == encode_utf8(".rustc_info.json"@)
        },
{
    texto::ley_los_nombres_son_utf8(nombre, ".fingerprint"@);
    texto::ley_los_nombres_son_utf8(nombre, ".reap-trash"@);
    texto::ley_los_nombres_son_utf8(nombre, "deps"@);
    texto::ley_los_nombres_son_utf8(nombre, "build"@);
    texto::ley_los_nombres_son_utf8(nombre, "incremental"@);
    texto::ley_los_nombres_son_utf8(nombre, ".rustc_info.json"@);
}

/// Todo directorio con un `.fingerprint/` y un `deps/` es un perfil, esté en `target/` o
/// a uno, dos o tres directorios de él que no sean de los excluidos: su ruta es la de
/// esos directorios, y sus unidades las que hay en su `.fingerprint/`.
pub proof fn ley_todo_perfil_se_halla(
    target: Seq<Seq<u8>>,
    hijos: Seq<Nodo>,
    cadena: Seq<Nodo>,
    huellas: Nodo,
    deps: Nodo,
)
    requires
        cadena.len() <= 3,
        forall|k: int|
            0 <= k < cadena.len() ==> (#[trigger] cadena[k]).es_dir && !es_huellas(
                cadena[k].nombre@,
            ) && !sin_perfiles(cadena[k].nombre@),
        cadena.len() > 0 ==> hijos.contains(cadena[0]),
        forall|k: int|
            0 <= k < cadena.len() - 1 ==> (#[trigger] cadena[k]).hijos@.contains(cadena[k + 1]),
        ({
            let dentro = if cadena.len() == 0 {
                hijos
            } else {
                cadena.last().hijos@
            };
            dentro.contains(huellas) && dentro.contains(deps)
        }),
        huellas.es_dir && huellas.nombre@ == encode_utf8(".fingerprint"@),
        deps.es_dir && deps.nombre@ == encode_utf8("deps"@),
    ensures
        ({
            let dir = target + cadena.map_values(|x: Nodo| x.nombre@);
            perfiles_de(target, hijos).contains(
                PerfilVista {
                    label: etiqueta(target, dir),
                    dir,
                    fingerprint_dir: dir.push(encode_utf8(".fingerprint"@)),
                    deps_dir: dir.push(encode_utf8("deps"@)),
                    units: fingerprint::unidades_leidas(
                        fingerprint::dirs_vistos(huellas.unidades@),
                    ),
                },
            )
        }),
{
    ley_donde_se_buscan_perfiles(huellas.nombre@);
    texto::ley_los_nombres_son_utf8(deps.nombre@, "deps"@);
    let pasos = lemma_pasos_de(hijos, cadena);
    let dentro = contenido_en(hijos, pasos);
    lemma_ruta_de_los_pasos(target, hijos, pasos, cadena);
    let k = choose|k: int| 0 <= k < dentro.len() && dentro[k] == huellas;
    let j = choose|j: int| 0 <= j < dentro.len() && dentro[j] == deps;
    assert(dentro[j].es_dir);
    assert(hay_deps(dentro));
    let dir = ruta_en(target, hijos, pasos);
    let p = PerfilVista {
        label: etiqueta(target, dir),
        dir,
        fingerprint_dir: dir.push(encode_utf8(".fingerprint"@)),
        deps_dir: dir.push(encode_utf8("deps"@)),
        units: fingerprint::unidades_leidas(fingerprint::dirs_vistos(huellas.unidades@)),
    };
    assert(es_perfil_en(target, hijos, pasos, k, p));
    ley_se_hallan_todos_los_perfiles(target, hijos, p);
}

/// ¿Son los pasos los de esa cadena de directorios?
spec fn siguen(hijos: Seq<Nodo>, pasos: Seq<int>, cadena: Seq<Nodo>) -> bool
    decreases pasos.len(),
{
    &&& pasos.len() == cadena.len()
    &&& pasos.len() > 0 ==> {
        &&& 0 <= pasos[0] < hijos.len()
        &&& hijos[pasos[0]] == cadena[0]
        &&& siguen(cadena[0].hijos@, pasos.drop_first(), cadena.drop_first())
    }
}

/// Los pasos que siguen una cadena de directorios.
proof fn lemma_pasos_de(hijos: Seq<Nodo>, cadena: Seq<Nodo>) -> (pasos: Seq<int>)
    requires
        forall|k: int|
            0 <= k < cadena.len() ==> (#[trigger] cadena[k]).es_dir && !es_huellas(
                cadena[k].nombre@,
            ) && !sin_perfiles(cadena[k].nombre@),
        cadena.len() > 0 ==> hijos.contains(cadena[0]),
        forall|k: int|
            0 <= k < cadena.len() - 1 ==> (#[trigger] cadena[k]).hijos@.contains(cadena[k + 1]),
    ensures
        pasos.len() == cadena.len(),
        siguen(hijos, pasos, cadena),
        se_llega(hijos, pasos),
        contenido_en(hijos, pasos) == if cadena.len() == 0 {
            hijos
        } else {
            cadena.last().hijos@
        },
    decreases cadena.len(),
{
    if cadena.len() == 0 {
        Seq::empty()
    } else {
        let i = choose|i: int| 0 <= i < hijos.len() && hijos[i] == cadena[0];
        let cola = cadena.drop_first();
        assert forall|k: int| 0 <= k < cola.len() implies (#[trigger] cola[k]).es_dir
            && !es_huellas(cola[k].nombre@) && !sin_perfiles(cola[k].nombre@) by {
            assert(cola[k] == cadena[k + 1]);
        }
        assert forall|k: int| 0 <= k < cola.len() - 1 implies (
        #[trigger] cola[k]).hijos@.contains(cola[k + 1]) by {
            assert(cola[k] == cadena[k + 1] && cola[k + 1] == cadena[k + 1 + 1]);
        }
        if cola.len() > 0 {
            assert(cadena[0].hijos@.contains(cadena[1]));
        }
        let resto = lemma_pasos_de(cadena[0].hijos@, cola);
        let pasos = seq![i] + resto;
        assert(pasos.drop_first() =~= resto);
        assert(cola.len() > 0 ==> cola.last() == cadena.last());
        pasos
    }
}

/// La ruta a la que llevan unos pasos es la de los nombres por los que pasan.
proof fn lemma_ruta_de_los_pasos(
    base: Seq<Seq<u8>>,
    hijos: Seq<Nodo>,
    pasos: Seq<int>,
    cadena: Seq<Nodo>,
)
    requires
        siguen(hijos, pasos, cadena),
    ensures
        ruta_en(base, hijos, pasos) == base + cadena.map_values(|x: Nodo| x.nombre@),
    decreases cadena.len(),
{
    let nombres = cadena.map_values(|x: Nodo| x.nombre@);
    if cadena.len() == 0 {
        assert(base + nombres =~= base);
    } else {
        let cola = cadena.drop_first();
        lemma_ruta_de_los_pasos(
            base.push(cadena[0].nombre@),
            cadena[0].hijos@,
            pasos.drop_first(),
            cola,
        );
        assert(base.push(cadena[0].nombre@) + cola.map_values(|x: Nodo| x.nombre@) =~= base
            + nombres);
    }
}

/// La cadena de directorios por la que llevan unos pasos.
proof fn lemma_cadena_de(hijos: Seq<Nodo>, pasos: Seq<int>) -> (cadena: Seq<Nodo>)
    requires
        se_llega(hijos, pasos),
    ensures
        siguen(hijos, pasos, cadena),
        forall|k: int|
            0 <= k < cadena.len() ==> (#[trigger] cadena[k]).es_dir && !es_huellas(
                cadena[k].nombre@,
            ) && !sin_perfiles(cadena[k].nombre@),
        cadena.len() > 0 ==> hijos.contains(cadena[0]),
        forall|k: int|
            0 <= k < cadena.len() - 1 ==> (#[trigger] cadena[k]).hijos@.contains(cadena[k + 1]),
        contenido_en(hijos, pasos) == if cadena.len() == 0 {
            hijos
        } else {
            cadena.last().hijos@
        },
    decreases pasos.len(),
{
    if pasos.len() == 0 {
        Seq::empty()
    } else {
        let x = hijos[pasos[0]];
        let cola = lemma_cadena_de(x.hijos@, pasos.drop_first());
        let cadena = seq![x] + cola;
        assert(cadena.drop_first() =~= cola);
        assert(cola.len() > 0 ==> cola.last() == cadena.last());
        assert forall|k: int| 0 <= k < cadena.len() implies (#[trigger] cadena[k]).es_dir
            && !es_huellas(cadena[k].nombre@) && !sin_perfiles(cadena[k].nombre@) by {
            if k > 0 {
                assert(cadena[k] == cola[k - 1]);
            }
        }
        assert forall|k: int| 0 <= k < cadena.len() - 1 implies (
        #[trigger] cadena[k]).hijos@.contains(cadena[k + 1]) by {
            if k > 0 {
                assert(cadena[k] == cola[k - 1] && cadena[k + 1] == cola[k - 1 + 1]);
            }
        }
        cadena
    }
}

/// Y no hay otros perfiles: el que se halla está a no más de tres directorios de
/// `target/`, ninguno de los excluidos, y contiene un `.fingerprint/`, que es el que se
/// leyó, y un `deps/`.
pub proof fn ley_no_se_hallan_otros_perfiles(
    target: Seq<Seq<u8>>,
    hijos: Seq<Nodo>,
    p: PerfilVista,
) -> (r: (Seq<Nodo>, Nodo, Nodo))
    requires
        perfiles_de(target, hijos).contains(p),
    ensures
        ({
            let (cadena, huellas, deps) = r;
            let dentro = if cadena.len() == 0 {
                hijos
            } else {
                cadena.last().hijos@
            };
            &&& cadena.len() <= 3
            &&& forall|k: int|
                0 <= k < cadena.len() ==> (#[trigger] cadena[k]).es_dir && !es_huellas(
                    cadena[k].nombre@,
                ) && !sin_perfiles(cadena[k].nombre@)
            &&& cadena.len() > 0 ==> hijos.contains(cadena[0])
            &&& forall|k: int|
                0 <= k < cadena.len() - 1 ==> (#[trigger] cadena[k]).hijos@.contains(cadena[k + 1])
            &&& dentro.contains(huellas) && dentro.contains(deps)
            &&& huellas.es_dir && huellas.nombre@ == encode_utf8(".fingerprint"@)
            &&& deps.es_dir && deps.nombre@ == encode_utf8("deps"@)
            &&& p.dir == target + cadena.map_values(|x: Nodo| x.nombre@)
            &&& p.label == etiqueta(target, p.dir)
            &&& p.fingerprint_dir == p.dir.push(encode_utf8(".fingerprint"@))
            &&& p.deps_dir == p.dir.push(encode_utf8("deps"@))
            &&& p.units == fingerprint::unidades_leidas(fingerprint::dirs_vistos(huellas.unidades@))
        }),
{
    ley_se_hallan_todos_los_perfiles(target, hijos, p);
    let (pasos, k) = choose|pasos: Seq<int>, k: int| #[trigger]
        es_perfil_en(target, hijos, pasos, k, p);
    let cadena = lemma_cadena_de(hijos, pasos);
    lemma_ruta_de_los_pasos(target, hijos, pasos, cadena);
    let dentro = contenido_en(hijos, pasos);
    let j = choose|j: int|
        0 <= j < dentro.len() && (#[trigger] dentro[j]).es_dir && texto::es_nombre(
            dentro[j].nombre@,
            "deps"@,
        );
    ley_donde_se_buscan_perfiles(dentro[k].nombre@);
    texto::ley_los_nombres_son_utf8(dentro[j].nombre@, "deps"@);
    (cadena, dentro[k], dentro[j])
}

/// La etiqueta de lo que no cuelga de `target/` es su ruta entera, desde la raíz.
pub proof fn ley_la_etiqueta_de_lo_ajeno(target: Seq<Seq<u8>>, nombres: Seq<Seq<char>>)
    requires
        !ruta::cuelga_de(ruta::codificados(nombres), target),
    ensures
        etiqueta(target, ruta::codificados(nombres)) == "/"@ + texto::unidos(nombres, "/"@),
{
    let escrita = texto::unidos(nombres, "/"@);
    ruta::lemma_con_barras_de_textos(nombres);
    reveal_strlit("/");
    is_ascii_chars_encode_utf8("/"@);
    assert(encode_utf8("/"@) =~= seq![47u8]);
    ruta::lemma_codificar_seguidos("/"@, escrita);
    texto::ley_como_se_muestran_los_bytes(Seq::empty(), "/"@ + escrita);
}

/// Los nombres de una etiqueta no tienen por qué ser UTF-8: se muestra la ruta que
/// queda tras `target/`, o la ruta entera de lo que no cuelga de él.
pub proof fn ley_la_etiqueta_de_cualquier_ruta(target: Seq<Seq<u8>>, resto: Seq<Seq<u8>>)
    ensures
        etiqueta(target, target + resto) == texto::mostrado(ruta::con_barras(resto)),
        !ruta::cuelga_de(resto, target) ==> etiqueta(target, resto) == texto::mostrado(
            seq![47u8] + ruta::con_barras(resto),
        ),
{
    assert((target + resto).take(target.len() as int) =~= target);
    assert((target + resto).skip(target.len() as int) =~= resto);
}

/// Lo que se halla es lo de cada elemento, uno detrás de otro y una sola vez: un
/// elemento más al final de un directorio sólo añade lo suyo, y por debajo de tres
/// directorios no se busca.
pub proof fn ley_cada_elemento_aporta_lo_suyo(
    base: Seq<Seq<u8>>,
    hermanos: Seq<Nodo>,
    x: Nodo,
    depth: nat,
)
    requires
        !(x.es_dir && x.nombre@ == encode_utf8("deps"@)),
    ensures
        ({
            let antes = hallazgos(base, hermanos, hermanos.len(), depth);
            let todos = hallazgos(base, hermanos.push(x), hermanos.push(x).len(), depth);
            &&& hermanos.len() == 0 ==> antes.len() == 0
            &&& depth > 3 ==> antes.len() == 0
            &&& !x.es_dir || sin_perfiles(x.nombre@) ==> todos == antes
            &&& depth <= 3 && x.es_dir && x.nombre@ == encode_utf8(".fingerprint"@) ==> todos
                == antes.push(
                HallazgoVisto {
                    dir: base,
                    con_deps: exists|i: int|
                        0 <= i < hermanos.len() && (#[trigger] hermanos[i]).es_dir
                            && hermanos[i].nombre@ == encode_utf8("deps"@),
                    unidades: fingerprint::dirs_vistos(x.unidades@),
                },
            )
            &&& depth <= 3 && x.es_dir && !es_huellas(x.nombre@) && !sin_perfiles(x.nombre@)
                ==> todos == antes + hallazgos(
                base.push(x.nombre@),
                x.hijos@,
                x.hijos@.len(),
                depth + 1,
            )
        }),
{
    let mas = hermanos.push(x);
    ley_donde_se_buscan_perfiles(x.nombre@);
    lemma_hay_deps(hermanos);
    lemma_hay_deps(mas);
    assert(hay_deps(mas) == hay_deps(hermanos)) by {
        if hay_deps(mas) {
            let j = choose|j: int|
                0 <= j < mas.len() && (#[trigger] mas[j]).es_dir && texto::es_nombre(
                    mas[j].nombre@,
                    "deps"@,
                );
            texto::ley_los_nombres_son_utf8(mas[j].nombre@, "deps"@);
            assert(j < hermanos.len());
            assert(hermanos[j].es_dir);
        }
        if hay_deps(hermanos) {
            let j = choose|j: int|
                0 <= j < hermanos.len() && (#[trigger] hermanos[j]).es_dir && texto::es_nombre(
                    hermanos[j].nombre@,
                    "deps"@,
                );
            assert(mas[j].es_dir);
        }
    }
    lemma_solo_los_primeros(base, hermanos, mas, hermanos.len(), depth);
    assert(mas[mas.len() - 1] == x);
    if sin_perfiles(x.nombre@) {
        lemma_las_huellas_no_se_excluyen();
    }
}

/// Hay un `deps/` justo cuando hay un directorio con ese nombre.
proof fn lemma_hay_deps(hermanos: Seq<Nodo>)
    ensures
        hay_deps(hermanos) <==> exists|i: int|
            0 <= i < hermanos.len() && (#[trigger] hermanos[i]).es_dir && hermanos[i].nombre@
                == encode_utf8("deps"@),
{
    assert forall|i: int| 0 <= i < hermanos.len() implies (texto::es_nombre(
        (#[trigger] hermanos[i]).nombre@,
        "deps"@,
    ) <==> hermanos[i].nombre@ == encode_utf8("deps"@)) by {
        texto::ley_los_nombres_son_utf8(hermanos[i].nombre@, "deps"@);
    }
}

/// `.fingerprint` no es uno de los nombres excluidos.
proof fn lemma_las_huellas_no_se_excluyen()
    ensures
        !sin_perfiles(encode_utf8(".fingerprint"@)),
{
    let h = encode_utf8(".fingerprint"@);
    texto::ley_los_nombres_son_utf8(h, ".fingerprint"@);
    reveal_strlit(".fingerprint");
    reveal_strlit(".reap-trash");
    reveal_strlit("deps");
    reveal_strlit("build");
    reveal_strlit("incremental");
    reveal_strlit(".rustc_info.json");
    assert(".fingerprint"@.len() == 12);
    assert(".reap-trash"@.len() == 11);
    assert("deps"@.len() == 4);
    assert("build"@.len() == 5);
    assert("incremental"@.len() == 11);
    assert(".rustc_info.json"@.len() == 16);
}

/// De los primeros elementos sale lo mismo, haya los que haya detrás.
proof fn lemma_solo_los_primeros(
    base: Seq<Seq<u8>>,
    a: Seq<Nodo>,
    b: Seq<Nodo>,
    n: nat,
    depth: nat,
)
    requires
        n <= a.len() <= b.len(),
        hay_deps(a) == hay_deps(b),
        forall|i: int| 0 <= i < a.len() ==> a[i] == #[trigger] b[i],
    ensures
        hallazgos(base, a, n, depth) == hallazgos(base, b, n, depth),
    decreases n,
{
    if n > 0 && depth <= NIVELES {
        lemma_solo_los_primeros(base, a, b, (n - 1) as nat, depth);
        assert(a[n - 1] == b[n - 1]);
    }
}

/// Los perfiles son los de los hallazgos que tienen un `deps/` al lado, en su orden.
pub proof fn ley_un_perfil_por_hallazgo(
    target: Seq<Seq<u8>>,
    hijos: Seq<Nodo>,
    h: HallazgoVisto,
)
    ensures
        !h.con_deps ==> perfil_de(target, h) is None,
        h.con_deps ==> perfil_de(target, h) == Some(
            PerfilVista {
                label: etiqueta(target, h.dir),
                dir: h.dir,
                fingerprint_dir: h.dir.push(encode_utf8(".fingerprint"@)),
                deps_dir: h.dir.push(encode_utf8("deps"@)),
                units: fingerprint::unidades_leidas(h.unidades),
            },
        ),
        perfiles_de(target, hijos) == hallazgos(target, hijos, hijos.len(), 0).filter_map(
            |h: HallazgoVisto| perfil_de(target, h),
        ),
{
}

/// Los hallazgos se ven uno a uno, campo a campo.
pub proof fn ley_los_hallazgos_se_ven_como_son(hallados: Seq<Hallazgo>, i: int)
    ensures
        hallazgos_vistos(hallados).len() == hallados.len(),
        0 <= i < hallados.len() ==> {
            let h = hallazgos_vistos(hallados)[i];
            &&& h.dir == hallados[i].dir@
            &&& h.con_deps == hallados[i].con_deps
            &&& h.unidades == fingerprint::dirs_vistos(hallados[i].unidades@)
        },
{
}

/// Los perfiles están por orden de etiqueta cuando ninguno va antes que otro que lo
/// precede; y los de una etiqueta son los que la llevan, en su orden.
pub proof fn ley_que_es_el_orden_de_etiquetas(
    ps: Seq<PerfilVista>,
    p: PerfilVista,
    label: Seq<char>,
    i: int,
    j: int,
)
    ensures
        ordenados_por_etiqueta(ps) && 0 <= i < j < ps.len() ==> !orden::texto_antes(
            ps[j].label,
            ps[i].label,
        ),
        con_etiqueta(Seq::empty(), label).len() == 0,
        con_etiqueta(ps.push(p), label) == if p.label == label {
            con_etiqueta(ps, label).push(p)
        } else {
            con_etiqueta(ps, label)
        },
{
    reveal(Seq::filter);
    assert(ps.push(p).drop_last() =~= ps);
}

} // verus!
