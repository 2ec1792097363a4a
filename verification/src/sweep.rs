//! Fase **sweep**: convertir el conjunto muerto en espacio libre.
//!
//! La fase mark decide *qué* sobra; acá se decide *cómo* se saca, que es donde
//! están los riesgos reales: no pisar un build en curso y no borrar de forma
//! irreversible a la primera.

use crate::artefacto::{self, Archivo};
use crate::conjunto::Conjunto;
use crate::fingerprint;
use crate::ruta::{self, Ruta};
use crate::texto;
use vstd::prelude::*;
use vstd::string::*;
use vstd::utf8::*;

verus! {

/// Directorio de papelera, relativo a la raíz de `target/`.
pub const TRASH_DIR: &'static str = ".reap-trash";

/// Qué hacer con lo que la fase mark declaró muerto.
#[derive(Clone, Copy, PartialEq, Eq, Debug, Structural)]
pub enum Mode {
    /// Sólo informar. Es el modo por defecto.
    DryRun,
    /// Mover a la papelera, de donde se purga pasados los días de retención.
    Trash,
    /// Borrar directamente, sin red de seguridad.
    Delete,
}

/// Una entrada muerta: un archivo de `deps/` o un directorio completo de
/// `.fingerprint/` o `build/`.
#[derive(Debug)]
pub struct Entry {
    pub path: Ruta,
    pub bytes: u64,
}

/// Lo que dice una entrada, como valor matemático.
#[verifier::ext_equal]
pub struct EntradaVista {
    pub path: Seq<Seq<u8>>,
    pub bytes: u64,
}

impl View for Entry {
    type V = EntradaVista;

    open spec fn view(&self) -> EntradaVista {
        EntradaVista { path: self.path@, bytes: self.bytes }
    }
}

/// Las vistas de unas entradas.
pub open spec fn entradas_vistas(entradas: Seq<Entry>) -> Seq<EntradaVista> {
    entradas.map_values(|e: Entry| e@)
}

/// La suma de los bytes de unas entradas.
pub open spec fn bytes_de(entradas: Seq<EntradaVista>) -> nat
    decreases entradas.len(),
{
    if entradas.len() == 0 {
        0
    } else {
        bytes_de(entradas.drop_last()) + entradas.last().bytes as nat
    }
}

/// Plan de barrido de un perfil, antes de ejecutar nada.
#[derive(Debug)]
pub struct Plan {
    pub deps: Vec<Entry>,
    pub fingerprints: Vec<Entry>,
    pub builds: Vec<Entry>,
    pub incremental: Vec<Entry>,
    pub codegen: Vec<Entry>,
}

/// Lo que dice un plan, como valor matemático.
#[verifier::ext_equal]
pub struct PlanVista {
    pub deps: Seq<EntradaVista>,
    pub fingerprints: Seq<EntradaVista>,
    pub builds: Seq<EntradaVista>,
    pub incremental: Seq<EntradaVista>,
    pub codegen: Seq<EntradaVista>,
}

impl View for Plan {
    type V = PlanVista;

    open spec fn view(&self) -> PlanVista {
        PlanVista {
            deps: entradas_vistas(self.deps@),
            fingerprints: entradas_vistas(self.fingerprints@),
            builds: entradas_vistas(self.builds@),
            incremental: entradas_vistas(self.incremental@),
            codegen: entradas_vistas(self.codegen@),
        }
    }
}

impl PlanVista {
    /// Todas las entradas del plan, zona por zona.
    pub open spec fn entradas(self) -> Seq<EntradaVista> {
        self.deps + self.fingerprints + self.builds + self.incremental + self.codegen
    }
}

impl Default for Plan {
    /// El plan que no saca nada.
    fn default() -> (r: Plan)
        ensures
            r@.entradas() == Seq::<EntradaVista>::empty(),
    {
        let r = Plan {
            deps: Vec::new(),
            fingerprints: Vec::new(),
            builds: Vec::new(),
            incremental: Vec::new(),
            codegen: Vec::new(),
        };
        assert(r@.entradas() =~= Seq::<EntradaVista>::empty());
        r
    }
}

/// La suma de unas entradas seguidas de otras es la de unas más la de otras.
pub proof fn lemma_bytes_de_la_union(a: Seq<EntradaVista>, b: Seq<EntradaVista>)
    ensures
        bytes_de(a + b) == bytes_de(a) + bytes_de(b),
    decreases b.len(),
{
    if b.len() == 0 {
        assert(a + b =~= a);
    } else {
        lemma_bytes_de_la_union(a, b.drop_last());
        assert((a + b).drop_last() =~= a + b.drop_last());
    }
}

/// Un tramo no suma más que el total.
proof fn lemma_bytes_de_un_tramo(entradas: Seq<EntradaVista>, i: int)
    requires
        0 <= i <= entradas.len(),
    ensures
        bytes_de(entradas.take(i)) <= bytes_de(entradas),
{
    assert(entradas =~= entradas.take(i) + entradas.skip(i));
    lemma_bytes_de_la_union(entradas.take(i), entradas.skip(i));
}

/// Suma los bytes de unas entradas.
pub fn sumar_bytes(entradas: &Vec<Entry>) -> (r: u64)
    requires
        bytes_de(entradas_vistas(entradas@)) <= u64::MAX,
    ensures
        r == bytes_de(entradas_vistas(entradas@)),
{
    let ghost vistas = entradas_vistas(entradas@);
    let mut total: u64 = 0;
    for i in 0..entradas.len()
        invariant
            vistas == entradas_vistas(entradas@),
            bytes_de(vistas) <= u64::MAX,
            total == bytes_de(vistas.take(i as int)),
    {
        assert(vistas.take(i + 1).drop_last() =~= vistas.take(i as int));
        assert(vistas.take(i + 1).last() == entradas@[i as int]@);
        proof {
            lemma_bytes_de_un_tramo(vistas, i + 1);
        }
        total += entradas[i].bytes;
    }
    assert(vistas.take(vistas.len() as int) =~= vistas);
    total
}

/// Agrega referencias a unas entradas detrás de las que ya había.
fn agregar<'a>(todas: &mut Vec<&'a Entry>, entradas: &'a Vec<Entry>)
    ensures
        referidas(final(todas)@) == referidas(old(todas)@) + entradas_vistas(entradas@),
{
    let ghost antes = referidas(todas@);
    let ghost vistas = entradas_vistas(entradas@);
    assert(antes + vistas.take(0) =~= antes);
    for i in 0..entradas.len()
        invariant
            vistas == entradas_vistas(entradas@),
            referidas(todas@) == antes + vistas.take(i as int),
    {
        let ghost previas = todas@;
        todas.push(&entradas[i]);
        assert(referidas(todas@) =~= referidas(previas).push(vistas[i as int]));
        assert(antes + vistas.take(i + 1) =~= (antes + vistas.take(i as int)).push(
            vistas[i as int],
        ));
    }
    assert(vistas.take(vistas.len() as int) =~= vistas);
}

/// Las vistas de unas referencias a entradas.
pub open spec fn referidas(entradas: Seq<&Entry>) -> Seq<EntradaVista> {
    entradas.map_values(|e: &Entry| e@)
}

impl Plan {
    /// Cuántos bytes saca el plan.
    pub fn bytes(&self) -> (r: u64)
        requires
            bytes_de(self@.entradas()) <= u64::MAX,
        ensures
            r == bytes_de(self@.entradas()),
    {
        proof {
            let v = self@;
            lemma_bytes_de_la_union(v.deps, v.fingerprints);
            lemma_bytes_de_la_union(v.deps + v.fingerprints, v.builds);
            lemma_bytes_de_la_union(v.deps + v.fingerprints + v.builds, v.incremental);
            lemma_bytes_de_la_union(
                v.deps + v.fingerprints + v.builds + v.incremental,
                v.codegen,
            );
        }
        sumar_bytes(&self.deps) + sumar_bytes(&self.fingerprints) + sumar_bytes(&self.builds)
            + sumar_bytes(&self.incremental) + sumar_bytes(&self.codegen)
    }

    /// Cuántas entradas tiene el plan.
    pub fn len(&self) -> (r: usize)
        requires
            self@.entradas().len() <= usize::MAX,
        ensures
            r == self@.entradas().len(),
    {
        self.deps.len() + self.fingerprints.len() + self.builds.len() + self.incremental.len()
            + self.codegen.len()
    }

    /// ¿No hay nada que sacar?
    pub fn is_empty(&self) -> (r: bool)
        ensures
            r == (self@.entradas().len() == 0),
    {
        self.deps.len() == 0 && self.fingerprints.len() == 0 && self.builds.len() == 0
            && self.incremental.len() == 0 && self.codegen.len() == 0
    }

    /// Las entradas del plan, zona por zona.
    pub fn todas(&self) -> (r: Vec<&Entry>)
        ensures
            referidas(r@) == self@.entradas(),
    {
        let mut r: Vec<&Entry> = Vec::new();
        assert(referidas(r@) =~= Seq::<EntradaVista>::empty());
        agregar(&mut r, &self.deps);
        agregar(&mut r, &self.fingerprints);
        agregar(&mut r, &self.builds);
        agregar(&mut r, &self.incremental);
        agregar(&mut r, &self.codegen);
        assert(referidas(r@) =~= self@.entradas());
        r
    }
}

/// Lo que hay dentro de un directorio, tal como se leyó.
pub enum Arbol {
    /// Un archivo, con los bytes que ocupa.
    Archivo(u64),
    /// Un directorio, con lo que contiene.
    Carpeta(Vec<Arbol>),
    /// Un enlace u otra cosa.
    Otro,
}

/// Los bytes que ocupa un elemento con todo lo que cuelga de él.
pub open spec fn peso(arbol: Arbol) -> nat
    decreases arbol,
{
    match arbol {
        Arbol::Archivo(bytes) => bytes as nat,
        Arbol::Carpeta(hijos) => peso_total(hijos@),
        Arbol::Otro => 0,
    }
}

/// Los bytes que ocupan unos elementos con todo lo que cuelga de ellos.
pub open spec fn peso_total(hijos: Seq<Arbol>) -> nat
    decreases hijos,
{
    if hijos.len() == 0 {
        0
    } else {
        peso_total(hijos.drop_last()) + peso(hijos.last())
    }
}

/// Un tramo no pesa más que el total.
proof fn lemma_peso_de_un_tramo(hijos: Seq<Arbol>, i: int)
    requires
        0 <= i <= hijos.len(),
    ensures
        peso_total(hijos.take(i)) <= peso_total(hijos),
    decreases hijos.len() - i,
{
    if i == hijos.len() {
        assert(hijos.take(i) =~= hijos);
    } else {
        lemma_peso_de_un_tramo(hijos, i + 1);
        assert(hijos.take(i + 1).drop_last() =~= hijos.take(i));
    }
}

/// Suma el tamaño de todo lo que cuelga de un directorio.
pub fn peso_recursivo(hijos: &Vec<Arbol>) -> (r: u64)
    requires
        peso_total(hijos@) <= u64::MAX,
    ensures
        r == peso_total(hijos@),
    decreases hijos,
{
    let mut total: u64 = 0;
    for i in 0..hijos.len()
        invariant
            peso_total(hijos@) <= u64::MAX,
            total == peso_total(hijos@.take(i as int)),
    {
        proof {
            assert(hijos@.take(i + 1).drop_last() =~= hijos@.take(i as int));
            assert(hijos@.take(i + 1).last() == hijos@[i as int]);
            assert(peso_total(hijos@.take(i + 1)) == total + peso(hijos@[i as int]));
            lemma_peso_de_un_tramo(hijos@, i + 1);
        }
        match &hijos[i] {
            Arbol::Archivo(bytes) => {
                total += *bytes;
            },
            Arbol::Carpeta(dentro) => {
                total += peso_recursivo(dentro);
            },
            Arbol::Otro => {},
        }
    }
    assert(hijos@.take(hijos@.len() as int) =~= hijos@);
    total
}

/// La entrada que corresponde a un archivo de un directorio.
pub open spec fn entrada_de_archivo(dir: Seq<Seq<u8>>, a: Archivo) -> EntradaVista {
    EntradaVista { path: dir.push(a.nombre@), bytes: a.bytes }
}

/// Las entradas que corresponden a unos archivos de un directorio.
pub open spec fn entradas_de_archivos(dir: Seq<Seq<u8>>, archivos: Seq<Archivo>) -> Seq<
    EntradaVista,
> {
    archivos.map_values(|a: Archivo| entrada_de_archivo(dir, a))
}

/// ¿Es un objeto intermedio de rustc que no está muerto?
pub open spec fn es_codegen_vivo(a: Archivo, vivos: Set<Seq<char>>) -> bool {
    &&& artefacto::nombre_de(a) is Some
    &&& texto::termina_en(artefacto::nombre_de(a)->0, ".rcgu.o"@)
    &&& !artefacto::esta_muerto(a, vivos)
}

/// Los objetos intermedios de rustc que no están muertos.
pub open spec fn los_codegen_vivos(archivos: Seq<Archivo>, vivos: Set<Seq<char>>) -> Seq<Archivo> {
    archivos.filter(|a: Archivo| es_codegen_vivo(a, vivos))
}

/// Pone un archivo de un directorio al final de las entradas.
fn anotar_archivo(out: &mut Vec<Entry>, dir: &Ruta, a: &Archivo, Ghost(previos): Ghost<Seq<Archivo>>)
    requires
        entradas_vistas(old(out)@) == entradas_de_archivos(dir@, previos),
    ensures
        entradas_vistas(final(out)@) == entradas_de_archivos(dir@, previos.push(*a)),
{
    let ghost antes = out@;
    out.push(Entry { path: dir.hijo(&a.nombre), bytes: a.bytes });
    assert(entradas_vistas(out@) =~= entradas_vistas(antes).push(entrada_de_archivo(dir@, *a)));
    assert(entradas_de_archivos(dir@, previos.push(*a)) =~= entradas_de_archivos(
        dir@,
        previos,
    ).push(entrada_de_archivo(dir@, *a)));
}

/// Archivos de `deps/` cuyo sufijo de hash no está en el conjunto vivo.
///
/// Sin hash reconocible no se toca: puede ser un artefacto que Cargo no versiona
/// y que no sabemos atribuir a ninguna unidad.
pub fn archivos_muertos(deps: &Ruta, archivos: &Vec<Archivo>, vivos: &Conjunto) -> (r: Vec<Entry>)
    ensures
        entradas_vistas(r@) == entradas_de_archivos(
            deps@,
            artefacto::los_muertos(archivos@, vivos@),
        ),
{
    let mut out: Vec<Entry> = Vec::new();
    proof {
        reveal(Seq::filter);
        assert(entradas_vistas(out@) =~= entradas_de_archivos(
            deps@,
            artefacto::los_muertos(archivos@.take(0), vivos@),
        ));
    }
    for i in 0..archivos.len()
        invariant
            entradas_vistas(out@) == entradas_de_archivos(
                deps@,
                artefacto::los_muertos(archivos@.take(i as int), vivos@),
            ),
    {
        let a = &archivos[i];
        let ghost previos = artefacto::los_muertos(archivos@.take(i as int), vivos@);
        proof {
            reveal(Seq::filter);
            assert(archivos@.take(i + 1).drop_last() =~= archivos@.take(i as int));
            assert(archivos@.take(i + 1).last() == *a);
        }
        if let Some(nombre) = artefacto::nombre_en_texto(a) {
            if let Some(h) = artefacto::hash_de_artefacto(nombre) {
                if !vivos.contains(h.as_str()) {
                    anotar_archivo(&mut out, deps, a, Ghost(previos));
                }
            }
        }
    }
    assert(archivos@.take(archivos@.len() as int) =~= archivos@);
    out
}

/// Objetos `.rcgu.o` que pertenecen a unidades vivas.
///
/// Los de unidades muertas ya salen por [`archivos_muertos`]; acá se recogen los
/// que sobrevivirían. Sin hash reconocible (`app.<id>.<cgu>.rcgu.o`) también son
/// intermedios y entran.
pub fn codegen_vivos(deps: &Ruta, archivos: &Vec<Archivo>, vivos: &Conjunto) -> (r: Vec<Entry>)
    ensures
        entradas_vistas(r@) == entradas_de_archivos(deps@, los_codegen_vivos(archivos@, vivos@)),
{
    let mut out: Vec<Entry> = Vec::new();
    proof {
        reveal(Seq::filter);
        assert(entradas_vistas(out@) =~= entradas_de_archivos(
            deps@,
            los_codegen_vivos(archivos@.take(0), vivos@),
        ));
    }
    for i in 0..archivos.len()
        invariant
            entradas_vistas(out@) == entradas_de_archivos(
                deps@,
                los_codegen_vivos(archivos@.take(i as int), vivos@),
            ),
    {
        let a = &archivos[i];
        let ghost previos = los_codegen_vivos(archivos@.take(i as int), vivos@);
        proof {
            reveal(Seq::filter);
            assert(archivos@.take(i + 1).drop_last() =~= archivos@.take(i as int));
            assert(archivos@.take(i + 1).last() == *a);
        }
        if let Some(nombre) = artefacto::nombre_en_texto(a) {
            if texto::tiene_sufijo(nombre, ".rcgu.o") {
                let vivo = match artefacto::hash_de_artefacto(nombre) {
                    Some(h) => vivos.contains(h.as_str()),
                    None => true,
                };
                if vivo {
                    anotar_archivo(&mut out, deps, a, Ghost(previos));
                }
            }
        }
    }
    assert(archivos@.take(archivos@.len() as int) =~= archivos@);
    out
}

/// Un elemento de `.fingerprint/` o de `build/`, tal como se leyó.
pub struct Carpeta {
    pub nombre: Vec<u8>,
    pub es_dir: bool,
    /// Lo que contiene, si [`nombre_muerto`] dice que está muerta.
    pub contenido: Vec<Arbol>,
}

/// ¿Es el nombre `<paquete>-<hash>`, con un hash que no está en el conjunto vivo?
pub open spec fn es_nombre_muerto(nombre: Seq<u8>, vivos: Set<Seq<char>>) -> bool {
    match texto::texto_de_bytes(nombre) {
        Some(nombre) => match fingerprint::paquete_y_hash(nombre) {
            Some((_, hash)) => !vivos.contains(hash),
            None => false,
        },
        None => false,
    }
}

/// ¿Es el nombre `<paquete>-<hash>`, con un hash que no está en el conjunto vivo?
pub fn nombre_muerto(nombre: &Vec<u8>, vivos: &Conjunto) -> (r: bool)
    ensures
        r == es_nombre_muerto(nombre@, vivos@),
{
    match texto::desde_utf8(nombre) {
        Some(nombre) => match fingerprint::separar_hash(nombre) {
            Some((_, hash)) => !vivos.contains(hash.as_str()),
            None => false,
        },
        None => false,
    }
}

/// ¿Es un directorio de una unidad que no está viva?
pub open spec fn carpeta_muerta(c: Carpeta, vivos: Set<Seq<char>>) -> bool {
    c.es_dir && es_nombre_muerto(c.nombre@, vivos)
}

/// La entrada que corresponde a una carpeta de un directorio.
pub open spec fn entrada_de_carpeta(dir: Seq<Seq<u8>>, c: Carpeta) -> EntradaVista {
    EntradaVista { path: dir.push(c.nombre@), bytes: peso_total(c.contenido@) as u64 }
}

/// Las carpetas de unidades que no están vivas.
pub open spec fn las_carpetas_muertas(carpetas: Seq<Carpeta>, vivos: Set<Seq<char>>) -> Seq<
    Carpeta,
> {
    carpetas.filter(|c: Carpeta| carpeta_muerta(c, vivos))
}

/// Las entradas que corresponden a unas carpetas de un directorio.
pub open spec fn entradas_de_carpetas(dir: Seq<Seq<u8>>, carpetas: Seq<Carpeta>) -> Seq<
    EntradaVista,
> {
    carpetas.map_values(|c: Carpeta| entrada_de_carpeta(dir, c))
}

/// ¿Se puede contar en 64 bits lo que ocupa cada carpeta muerta?
pub open spec fn medibles(carpetas: Seq<Carpeta>, vivos: Set<Seq<char>>) -> bool {
    forall|i: int|
        0 <= i < carpetas.len() && carpeta_muerta(#[trigger] carpetas[i], vivos) ==> peso_total(
            carpetas[i].contenido@,
        ) <= u64::MAX
}

/// Subdirectorios `<paquete>-<hash>` cuyo hash no está en el conjunto vivo.
pub fn dirs_muertos(dir: &Ruta, carpetas: &Vec<Carpeta>, vivos: &Conjunto) -> (r: Vec<Entry>)
    requires
        medibles(carpetas@, vivos@),
    ensures
        entradas_vistas(r@) == entradas_de_carpetas(
            dir@,
            las_carpetas_muertas(carpetas@, vivos@),
        ),
{
    let mut out: Vec<Entry> = Vec::new();
    proof {
        reveal(Seq::filter);
        assert(entradas_vistas(out@) =~= entradas_de_carpetas(
            dir@,
            las_carpetas_muertas(carpetas@.take(0), vivos@),
        ));
    }
    for i in 0..carpetas.len()
        invariant
            medibles(carpetas@, vivos@),
            entradas_vistas(out@) == entradas_de_carpetas(
                dir@,
                las_carpetas_muertas(carpetas@.take(i as int), vivos@),
            ),
    {
        let c = &carpetas[i];
        let ghost previas = las_carpetas_muertas(carpetas@.take(i as int), vivos@);
        let ghost antes = out@;
        proof {
            reveal(Seq::filter);
            assert(carpetas@.take(i + 1).drop_last() =~= carpetas@.take(i as int));
            assert(carpetas@.take(i + 1).last() == *c);
        }
        if c.es_dir && nombre_muerto(&c.nombre, vivos) {
            assert(carpeta_muerta(carpetas@[i as int], vivos@));
            let bytes: u64 = peso_recursivo(&c.contenido);
            out.push(Entry { path: dir.hijo(&c.nombre), bytes });
            assert(entradas_vistas(out@) =~= entradas_vistas(antes).push(
                entrada_de_carpeta(dir@, *c),
            ));
            assert(entradas_de_carpetas(dir@, previas.push(*c)) =~= entradas_de_carpetas(
                dir@,
                previas,
            ).push(entrada_de_carpeta(dir@, *c)));
        }
    }
    assert(carpetas@.take(carpetas@.len() as int) =~= carpetas@);
    out
}

/// Lo que hay en el directorio de un perfil, tal como se leyó.
pub struct FotoDePerfil {
    pub deps: Vec<Archivo>,
    pub fingerprints: Vec<Carpeta>,
    pub builds: Vec<Carpeta>,
    /// Lo que contiene `incremental/`, si es un directorio.
    pub incremental: Option<Vec<Arbol>>,
}

/// La entrada de `incremental/`, si existe y ocupa algo.
pub open spec fn entradas_de_incremental(dir: Seq<Seq<u8>>, contenido: Option<Vec<Arbol>>) -> Seq<
    EntradaVista,
> {
    match contenido {
        Some(hijos) => if peso_total(hijos@) > 0 {
            seq![
                EntradaVista {
                    path: dir.push(encode_utf8("incremental"@)),
                    bytes: peso_total(hijos@) as u64,
                },
            ]
        } else {
            Seq::empty()
        },
        None => Seq::empty(),
    }
}

/// El plan de un perfil: sus archivos y carpetas muertos y, si se piden, lo que
/// haya en `incremental/` y los objetos intermedios de las unidades vivas.
pub open spec fn plan_de(
    dir: Seq<Seq<u8>>,
    foto: FotoDePerfil,
    vivos: Set<Seq<char>>,
    incluir_incremental: bool,
    incluir_codegen: bool,
) -> PlanVista {
    let deps = dir.push(encode_utf8("deps"@));
    PlanVista {
        deps: entradas_de_archivos(deps, artefacto::los_muertos(foto.deps@, vivos)),
        fingerprints: entradas_de_carpetas(
            dir.push(encode_utf8(".fingerprint"@)),
            las_carpetas_muertas(foto.fingerprints@, vivos),
        ),
        builds: entradas_de_carpetas(
            dir.push(encode_utf8("build"@)),
            las_carpetas_muertas(foto.builds@, vivos),
        ),
        incremental: if incluir_incremental {
            entradas_de_incremental(dir, foto.incremental)
        } else {
            Seq::empty()
        },
        codegen: if incluir_codegen {
            entradas_de_archivos(deps, los_codegen_vivos(foto.deps@, vivos))
        } else {
            Seq::empty()
        },
    }
}

/// ¿Se puede contar en 64 bits lo que ocupa cada cosa que el plan tiene que medir?
pub open spec fn foto_medible(
    foto: FotoDePerfil,
    vivos: Set<Seq<char>>,
    incluir_incremental: bool,
) -> bool {
    &&& medibles(foto.fingerprints@, vivos)
    &&& medibles(foto.builds@, vivos)
    &&& incluir_incremental && foto.incremental is Some ==> peso_total(foto.incremental->0@)
        <= u64::MAX
}

/// Construye el plan de un perfil a partir del conjunto vivo de hashes.
///
/// `deps/` se clasifica archivo a archivo; `.fingerprint/` y `build/` por
/// directorio, porque ahí cada unidad ocupa un directorio propio cuyo sufijo de
/// hash es el mismo que el del artefacto.
///
/// Los objetos de codegen de unidades *vivas* los reemite rustc cuando toca
/// recompilar esa unidad, y Cargo no los cuenta entre los outputs que verifica,
/// así que borrarlos no ensucia el fingerprint ni fuerza un rebuild.
pub fn plan_profile(
    profile_dir: &Ruta,
    foto: &FotoDePerfil,
    vivos: &Conjunto,
    incluir_incremental: bool,
    incluir_codegen: bool,
) -> (r: Plan)
    requires
        foto_medible(*foto, vivos@, incluir_incremental),
    ensures
        r@ == plan_de(profile_dir@, *foto, vivos@, incluir_incremental, incluir_codegen),
{
    let deps = profile_dir.join("deps");
    let codegen: Vec<Entry> = if incluir_codegen {
        codegen_vivos(&deps, &foto.deps, vivos)
    } else {
        Vec::new()
    };
    let mut incremental: Vec<Entry> = Vec::new();
    if incluir_incremental {
        if let Some(contenido) = &foto.incremental {
            let bytes: u64 = peso_recursivo(contenido);
            if bytes > 0 {
                incremental.push(Entry { path: profile_dir.join("incremental"), bytes });
            }
        }
    }
    let plan = Plan {
        deps: archivos_muertos(&deps, &foto.deps, vivos),
        fingerprints: dirs_muertos(&profile_dir.join(".fingerprint"), &foto.fingerprints, vivos),
        builds: dirs_muertos(&profile_dir.join("build"), &foto.builds, vivos),
        incremental,
        codegen,
    };
    assert(plan@ =~= plan_de(profile_dir@, *foto, vivos@, incluir_incremental, incluir_codegen));
    plan
}

/// Lo que hay que hacer con una entrada.
pub enum Tarea {
    /// Moverla, creando antes el directorio que contiene al destino.
    Mover { origen: Ruta, destino: Ruta },
    /// Borrarla, con todo lo que cuelgue de ella.
    Borrar(Ruta),
    /// Nada: no cuelga de `target/` y no se sabe dónde ponerla. Cuenta como fallo.
    Fuera,
}

/// Lo que dice una tarea, como valor matemático.
#[verifier::ext_equal]
pub enum TareaVista {
    Mover { origen: Seq<Seq<u8>>, destino: Seq<Seq<u8>> },
    Borrar(Seq<Seq<u8>>),
    Fuera,
}

impl View for Tarea {
    type V = TareaVista;

    open spec fn view(&self) -> TareaVista {
        match self {
            Tarea::Mover { origen, destino } => TareaVista::Mover {
                origen: origen@,
                destino: destino@,
            },
            Tarea::Borrar(path) => TareaVista::Borrar(path@),
            Tarea::Fuera => TareaVista::Fuera,
        }
    }
}

/// Las vistas de unas tareas.
pub open spec fn tareas_vistas(tareas: Seq<Tarea>) -> Seq<TareaVista> {
    tareas.map_values(|t: Tarea| t@)
}

/// El directorio de papelera de un `target/`.
pub open spec fn papelera_de(target_root: Seq<Seq<u8>>) -> Seq<Seq<u8>> {
    target_root.push(encode_utf8(TRASH_DIR@))
}

/// El lote de papelera de un instante, en segundos desde epoch.
pub open spec fn lote_de(target_root: Seq<Seq<u8>>, ts: u64) -> Seq<Seq<u8>> {
    papelera_de(target_root).push(encode_utf8(texto::decimal(ts as nat)))
}

/// El directorio de papelera de un `target/`.
pub fn papelera(target_root: &Ruta) -> (r: Ruta)
    ensures
        r@ == papelera_de(target_root@),
{
    target_root.join(TRASH_DIR)
}

/// Dónde queda una ruta de `target/` dentro de un lote.
pub open spec fn destino_en(
    path: Seq<Seq<u8>>,
    target_root: Seq<Seq<u8>>,
    lote: Seq<Seq<u8>>,
) -> Seq<Seq<u8>> {
    lote + path.skip(target_root.len() as int)
}

/// Lo que hay que hacer para mover una ruta a un lote.
pub open spec fn mudanza(
    path: Seq<Seq<u8>>,
    target_root: Seq<Seq<u8>>,
    lote: Seq<Seq<u8>>,
) -> TareaVista {
    if ruta::cuelga_de(path, target_root) {
        TareaVista::Mover { origen: path, destino: destino_en(path, target_root, lote) }
    } else {
        TareaVista::Fuera
    }
}

/// Mueve preservando la ruta relativa dentro de `target/`, para que un rescate
/// manual sea copiar el árbol de vuelta.
pub fn mover_a_papelera(path: &Ruta, target_root: &Ruta, lote: &Ruta) -> (r: Tarea)
    ensures
        r@ == mudanza(path@, target_root@, lote@),
{
    match path.strip_prefix(target_root) {
        Some(rel) => Tarea::Mover { origen: path.clone(), destino: lote.extender(&rel) },
        None => Tarea::Fuera,
    }
}

/// Lo que hay que hacer con una entrada según el modo.
pub open spec fn tarea_de(
    entrada: EntradaVista,
    target_root: Seq<Seq<u8>>,
    mode: Mode,
    ts: u64,
) -> TareaVista {
    if mode == Mode::Trash {
        mudanza(entrada.path, target_root, lote_de(target_root, ts))
    } else {
        TareaVista::Borrar(entrada.path)
    }
}

/// Lo que hay que hacer para ejecutar un plan.
pub open spec fn tareas_de(plan: PlanVista, target_root: Seq<Seq<u8>>, mode: Mode, ts: u64) -> Seq<
    TareaVista,
> {
    if mode == Mode::DryRun {
        Seq::empty()
    } else {
        plan.entradas().map_values(|e: EntradaVista| tarea_de(e, target_root, mode, ts))
    }
}

/// Cómo se ejecuta un plan.
pub struct Ejecucion {
    /// El directorio que hay que crear antes de nada, si se usa la papelera.
    pub lote: Option<Ruta>,
    /// Una tarea por entrada del plan, en su orden; ninguna si sólo se informa.
    pub tareas: Vec<Tarea>,
}

/// Ejecuta el plan. En [`Mode::DryRun`] no toca nada.
///
/// Hay un único directorio de papelera por ejecución, con marca de tiempo, para
/// que la purga por retención pueda razonar por lote y no archivo a archivo.
pub fn execute(plan: &Plan, target_root: &Ruta, mode: Mode, ts: u64) -> (r: Ejecucion)
    ensures
        match r.lote {
            Some(lote) => mode == Mode::Trash && lote@ == lote_de(target_root@, ts),
            None => mode != Mode::Trash,
        },
        tareas_vistas(r.tareas@) == tareas_de(plan@, target_root@, mode, ts),
{
    let mut tareas: Vec<Tarea> = Vec::new();
    if mode == Mode::DryRun {
        assert(tareas_vistas(tareas@) =~= Seq::<TareaVista>::empty());
        return Ejecucion { lote: None, tareas };
    }
    let lote = papelera(target_root).join(texto::escribir_decimal(ts).as_str());
    let todas = plan.todas();
    let ghost entradas = plan@.entradas();
    let ghost esperadas = tareas_de(plan@, target_root@, mode, ts);
    for i in 0..todas.len()
        invariant
            mode != Mode::DryRun,
            lote@ == lote_de(target_root@, ts),
            entradas == plan@.entradas(),
            esperadas == tareas_de(plan@, target_root@, mode, ts),
            entradas == referidas(todas@),
            tareas_vistas(tareas@) == esperadas.take(i as int),
    {
        let ghost antes = tareas@;
        assert(entradas[i as int] == todas@[i as int]@);
        let tarea = if mode == Mode::Trash {
            mover_a_papelera(&todas[i].path, target_root, &lote)
        } else {
            Tarea::Borrar(todas[i].path.clone())
        };
        assert(tarea@ == esperadas[i as int]);
        tareas.push(tarea);
        assert(tareas_vistas(tareas@) =~= tareas_vistas(antes).push(esperadas[i as int]));
        assert(esperadas.take(i + 1) =~= esperadas.take(i as int).push(esperadas[i as int]));
    }
    assert(esperadas.take(entradas.len() as int) =~= esperadas);
    Ejecucion {
        lote: if mode == Mode::Trash {
            Some(lote)
        } else {
            None
        },
        tareas,
    }
}

/// Resultado de ejecutar un plan.
#[derive(Clone, Copy, PartialEq, Eq, Debug, Structural)]
pub struct Stats {
    pub liberados: u64,
    pub entradas: usize,
    pub fallos: usize,
}

impl Default for Stats {
    /// El resultado de no haber hecho nada.
    fn default() -> (r: Stats)
        ensures
            r == (Stats { liberados: 0, entradas: 0, fallos: 0 }),
    {
        Stats { liberados: 0, entradas: 0, fallos: 0 }
    }
}

/// De las primeras entradas, las que salieron bien.
pub open spec fn logradas(entradas: Seq<EntradaVista>, exitos: Seq<bool>) -> Seq<EntradaVista>
    decreases exitos.len(),
{
    if exitos.len() == 0 {
        Seq::empty()
    } else if exitos.last() {
        logradas(entradas, exitos.drop_last()).push(entradas[exitos.len() - 1])
    } else {
        logradas(entradas, exitos.drop_last())
    }
}

/// Un tramo no logra más que el total.
proof fn lemma_logradas_de_un_tramo(entradas: Seq<EntradaVista>, exitos: Seq<bool>, i: int)
    requires
        0 <= i <= exitos.len(),
    ensures
        logradas(entradas, exitos.take(i)).len() <= i,
        bytes_de(logradas(entradas, exitos.take(i))) <= bytes_de(logradas(entradas, exitos)),
    decreases exitos.len() - i,
{
    lemma_logradas_son_menos(entradas, exitos.take(i));
    if i == exitos.len() {
        assert(exitos.take(i) =~= exitos);
    } else {
        lemma_logradas_de_un_tramo(entradas, exitos, i + 1);
        assert(exitos.take(i + 1).drop_last() =~= exitos.take(i));
        let antes = logradas(entradas, exitos.take(i));
        assert(antes.push(entradas[i]).drop_last() =~= antes);
    }
}

/// No se logra más de lo que se intenta.
proof fn lemma_logradas_son_menos(entradas: Seq<EntradaVista>, exitos: Seq<bool>)
    ensures
        logradas(entradas, exitos).len() <= exitos.len(),
    decreases exitos.len(),
{
    if exitos.len() > 0 {
        lemma_logradas_son_menos(entradas, exitos.drop_last());
    }
}

/// Hace la cuenta de lo que salió bien y de lo que no.
///
/// `exitos` dice cómo le fue a cada una de las primeras entradas.
fn contar(entradas: &Vec<&Entry>, exitos: &Vec<bool>) -> (r: Stats)
    requires
        exitos@.len() <= entradas@.len(),
        bytes_de(logradas(referidas(entradas@), exitos@)) <= u64::MAX,
    ensures
        r.liberados == bytes_de(logradas(referidas(entradas@), exitos@)),
        r.entradas == logradas(referidas(entradas@), exitos@).len(),
        r.entradas + r.fallos == exitos@.len(),
{
    let ghost vistas = referidas(entradas@);
    let mut stats = Stats { liberados: 0, entradas: 0, fallos: 0 };
    for i in 0..exitos.len()
        invariant
            exitos@.len() <= entradas@.len(),
            vistas == referidas(entradas@),
            bytes_de(logradas(vistas, exitos@)) <= u64::MAX,
            stats.liberados == bytes_de(logradas(vistas, exitos@.take(i as int))),
            stats.entradas == logradas(vistas, exitos@.take(i as int)).len(),
            stats.entradas + stats.fallos == i,
    {
        let ghost antes = logradas(vistas, exitos@.take(i as int));
        proof {
            assert(exitos@.take(i + 1).drop_last() =~= exitos@.take(i as int));
            assert(exitos@.take(i + 1).last() == exitos@[i as int]);
            assert(vistas[i as int] == entradas@[i as int]@);
            lemma_logradas_de_un_tramo(vistas, exitos@, i + 1);
            assert(antes.push(vistas[i as int]).drop_last() =~= antes);
        }
        if exitos[i] {
            stats.liberados += entradas[i].bytes;
            stats.entradas += 1;
        } else {
            stats.fallos += 1;
        }
    }
    assert(exitos@.take(exitos@.len() as int) =~= exitos@);
    stats
}

/// Hace la cuenta de un plan ejecutado: `exitos` dice cómo le fue a cada tarea.
pub fn balance(plan: &Plan, exitos: &Vec<bool>) -> (r: Stats)
    requires
        exitos@.len() <= plan@.entradas().len(),
        bytes_de(logradas(plan@.entradas(), exitos@)) <= u64::MAX,
    ensures
        r.liberados == bytes_de(logradas(plan@.entradas(), exitos@)),
        r.entradas == logradas(plan@.entradas(), exitos@).len(),
        r.entradas + r.fallos == exitos@.len(),
{
    contar(&plan.todas(), exitos)
}

/// Un lote de papelera, tal como se leyó.
pub struct Lote {
    pub nombre: Vec<u8>,
    /// Lo que contiene, si [`lote_vencido`] dice que hay que purgarlo.
    pub contenido: Vec<Arbol>,
}

/// Cuánto hace que se hizo el lote; nada si es del futuro.
pub open spec fn edad(ahora: u64, ts: nat) -> nat {
    if ts <= ahora {
        (ahora - ts) as nat
    } else {
        0
    }
}

/// ¿Es el nombre de un lote más viejo que la retención, en segundos?
pub open spec fn esta_vencido(nombre: Seq<u8>, ahora: u64, retener: u64) -> bool {
    match texto::texto_de_bytes(nombre) {
        Some(nombre) => match texto::natural_hasta(nombre, u64::MAX as nat) {
            Some(ts) => edad(ahora, ts) > retener,
            None => false,
        },
        None => false,
    }
}

/// ¿Es el nombre de un lote más viejo que la retención, en segundos?
pub fn lote_vencido(nombre: &Vec<u8>, ahora: u64, retener: u64) -> (r: bool)
    ensures
        r == esta_vencido(nombre@, ahora, retener),
{
    match texto::desde_utf8(nombre) {
        Some(nombre) => match texto::leer_natural(nombre, u64::MAX) {
            Some(ts) => ts <= ahora && ahora - ts > retener,
            None => false,
        },
        None => false,
    }
}

/// La entrada que corresponde a un lote.
pub open spec fn entrada_de_lote(target_root: Seq<Seq<u8>>, lote: Lote) -> EntradaVista {
    EntradaVista {
        path: papelera_de(target_root).push(lote.nombre@),
        bytes: peso_total(lote.contenido@) as u64,
    }
}

/// Los lotes más viejos que la retención.
pub open spec fn lotes_vencidos(lotes: Seq<Lote>, ahora: u64, retener: u64) -> Seq<Lote> {
    lotes.filter(|l: Lote| esta_vencido(l.nombre@, ahora, retener))
}

/// Las entradas que corresponden a unos lotes.
pub open spec fn entradas_de_lotes(target_root: Seq<Seq<u8>>, lotes: Seq<Lote>) -> Seq<
    EntradaVista,
> {
    lotes.map_values(|l: Lote| entrada_de_lote(target_root, l))
}

/// ¿Se puede contar en 64 bits lo que ocupa cada lote vencido?
pub open spec fn lotes_medibles(lotes: Seq<Lote>, ahora: u64, retener: u64) -> bool {
    forall|i: int|
        0 <= i < lotes.len() && esta_vencido((#[trigger] lotes[i]).nombre@, ahora, retener)
            ==> peso_total(lotes[i].contenido@) <= u64::MAX
}

/// Purga los lotes de papelera más viejos que la retención: los que hay que borrar.
pub fn purgar_papelera(target_root: &Ruta, lotes: &Vec<Lote>, ahora: u64, retener: u64) -> (r: Vec<
    Entry,
>)
    requires
        lotes_medibles(lotes@, ahora, retener),
    ensures
        entradas_vistas(r@) == entradas_de_lotes(
            target_root@,
            lotes_vencidos(lotes@, ahora, retener),
        ),
{
    let trash = papelera(target_root);
    let mut out: Vec<Entry> = Vec::new();
    proof {
        reveal(Seq::filter);
        assert(entradas_vistas(out@) =~= entradas_de_lotes(
            target_root@,
            lotes_vencidos(lotes@.take(0), ahora, retener),
        ));
    }
    for i in 0..lotes.len()
        invariant
            trash@ == papelera_de(target_root@),
            lotes_medibles(lotes@, ahora, retener),
            entradas_vistas(out@) == entradas_de_lotes(
                target_root@,
                lotes_vencidos(lotes@.take(i as int), ahora, retener),
            ),
    {
        let lote = &lotes[i];
        let ghost previos = lotes_vencidos(lotes@.take(i as int), ahora, retener);
        let ghost antes = out@;
        proof {
            reveal(Seq::filter);
            assert(lotes@.take(i + 1).drop_last() =~= lotes@.take(i as int));
            assert(lotes@.take(i + 1).last() == *lote);
        }
        if lote_vencido(&lote.nombre, ahora, retener) {
            let bytes: u64 = peso_recursivo(&lote.contenido);
            out.push(Entry { path: trash.hijo(&lote.nombre), bytes });
            assert(entradas_vistas(out@) =~= entradas_vistas(antes).push(
                entrada_de_lote(target_root@, *lote),
            ));
            assert(entradas_de_lotes(target_root@, previos.push(*lote)) =~= entradas_de_lotes(
                target_root@,
                previos,
            ).push(entrada_de_lote(target_root@, *lote)));
        }
    }
    assert(lotes@.take(lotes@.len() as int) =~= lotes@);
    out
}

/// Los bytes que liberó una purga: `exitos` dice cómo le fue a cada lote.
pub fn bytes_purgados(lotes: &Vec<Entry>, exitos: &Vec<bool>) -> (r: u64)
    requires
        exitos@.len() <= lotes@.len(),
        bytes_de(logradas(entradas_vistas(lotes@), exitos@)) <= u64::MAX,
    ensures
        r == bytes_de(logradas(entradas_vistas(lotes@), exitos@)),
{
    let mut todas: Vec<&Entry> = Vec::new();
    assert(referidas(todas@) =~= Seq::<EntradaVista>::empty());
    agregar(&mut todas, lotes);
    assert(referidas(todas@) =~= entradas_vistas(lotes@));
    contar(&todas, exitos).liberados
}

/// Los segundos de unos días de retención.
pub fn segundos_de_retencion(dias: u64) -> (r: u64)
    requires
        dias * 86_400 <= u64::MAX,
    ensures
        r == dias * 86_400,
{
    dias * 86_400
}

/// ¿Hay un build de Cargo en curso sobre este perfil?
///
/// Cargo mantiene `<profile>/.cargo-lock` tomado mientras compila. `flock` es lo
/// que devolvió intentar tomarlo en exclusiva y sin esperar, y nada si el archivo
/// no se pudo abrir: sin archivo de lock nunca hubo build acá, y no hay nada que
/// respetar. Si no se consiguió, hay un build corriendo y no se debe tocar nada,
/// porque estaríamos borrando artefactos que rustc está escribiendo en ese mismo
/// momento.
pub fn build_en_curso(flock: Option<i32>) -> (r: bool)
    ensures
        r == (flock is Some && flock != Some(0i32)),
{
    match flock {
        Some(tomado) => tomado != 0,
        None => false,
    }
}

/// Unas entradas se ven una a una, con su ruta y sus bytes.
pub proof fn ley_las_entradas_se_ven_como_son(entradas: Seq<Entry>, refs: Seq<&Entry>, i: int)
    ensures
        entradas_vistas(entradas).len() == entradas.len(),
        0 <= i < entradas.len() ==> entradas_vistas(entradas)[i].path == entradas[i].path@
            && entradas_vistas(entradas)[i].bytes == entradas[i].bytes,
        referidas(refs).len() == refs.len(),
        0 <= i < refs.len() ==> referidas(refs)[i].path == refs[i].path@ && referidas(refs)[i].bytes
            == refs[i].bytes,
{
}

/// Un plan se ve como es, zona por zona.
pub proof fn ley_los_planes_se_ven_como_son(plan: Plan)
    ensures
        plan@.deps == entradas_vistas(plan.deps@),
        plan@.fingerprints == entradas_vistas(plan.fingerprints@),
        plan@.builds == entradas_vistas(plan.builds@),
        plan@.incremental == entradas_vistas(plan.incremental@),
        plan@.codegen == entradas_vistas(plan.codegen@),
{
}

/// Unas tareas se ven una a una: mover es mover, y borrar es borrar lo mismo.
pub proof fn ley_las_tareas_se_ven_como_son(tareas: Seq<Tarea>, i: int)
    ensures
        tareas_vistas(tareas).len() == tareas.len(),
        0 <= i < tareas.len() ==> match tareas[i] {
            Tarea::Mover { origen, destino } => tareas_vistas(tareas)[i] == (TareaVista::Mover {
                origen: origen@,
                destino: destino@,
            }),
            Tarea::Borrar(path) => tareas_vistas(tareas)[i] == TareaVista::Borrar(path@),
            Tarea::Fuera => tareas_vistas(tareas)[i] == TareaVista::Fuera,
        },
{
}

} // verus!
