//! Los artefactos de `deps/` y su clasificación en vivos y muertos.

use crate::conjunto::{Conjunto, Miembros};
use crate::fingerprint::{self, Profile, UnidadVista};
use crate::mark::{self, Vivos};
use crate::orden;
use crate::ruta::Ruta;
use crate::texto;
use vstd::prelude::*;
use vstd::string::*;
use vstd::utf8::*;

verus! {

/// Lo que va antes del primer punto de un nombre.
pub open spec fn antes_del_punto(nombre: Seq<char>) -> Seq<char> {
    match texto::partir_por_primero(nombre, '.') {
        Some((tallo, _)) => tallo,
        None => nombre,
    }
}

/// El sufijo de hash de un artefacto: lo que sigue al último guion antes del
/// primer punto, si tiene forma de hash.
pub open spec fn hash_del_artefacto(nombre: Seq<char>) -> Option<Seq<char>> {
    match fingerprint::paquete_y_hash(antes_del_punto(nombre)) {
        Some((_, hash)) => Some(hash),
        None => None,
    }
}

/// Extrae el sufijo de hash de un artefacto de `deps/`.
///
/// El hash siempre está en el primer segmento, antes del primer punto: los nombres
/// de crate no pueden contener puntos, así que todo lo que sigue es extensión o
/// sufijo de codegen unit.
///
/// `libsqlparser-3aed8a7b2a1da43b.rlib`                 -> `3aed8a7b2a1da43b`
/// `app_server-32096233fdac0ecc`                        -> `32096233fdac0ecc`
/// `adler2-33c837f7cd28a9af.adler2.33f-cgu.0.rcgu.o`    -> `33c837f7cd28a9af`
pub fn hash_de_artefacto(name: &str) -> (r: Option<String>)
    ensures
        match r {
            Some(hash) => hash_del_artefacto(name@) == Some(hash@),
            None => hash_del_artefacto(name@) is None,
        },
{
    let tallo: String = match texto::partir_primero(name, '.') {
        Some((tallo, _)) => tallo,
        None => name.to_owned(),
    };
    match fingerprint::separar_hash(tallo.as_str()) {
        Some((_, hash)) => Some(hash),
        None => None,
    }
}

/// Un elemento de `deps/`, tal como se leyó.
pub struct Archivo {
    pub nombre: Vec<u8>,
    /// Es un archivo; no un directorio ni un enlace.
    pub es_archivo: bool,
    pub bytes: u64,
}

/// El nombre de un archivo, si es texto.
pub open spec fn nombre_de(a: Archivo) -> Option<Seq<char>> {
    if a.es_archivo {
        texto::texto_de_bytes(a.nombre@)
    } else {
        None
    }
}

/// El sufijo de hash de un archivo, si lo tiene.
pub open spec fn hash_de(a: Archivo) -> Option<Seq<char>> {
    match nombre_de(a) {
        Some(nombre) => hash_del_artefacto(nombre),
        None => None,
    }
}

/// ¿Es un archivo con un hash que está en el conjunto vivo?
pub open spec fn esta_vivo(a: Archivo, vivos: Set<Seq<char>>) -> bool {
    hash_de(a) is Some && vivos.contains(hash_de(a)->0)
}

/// ¿Es un archivo con un hash que no está en el conjunto vivo?
pub open spec fn esta_muerto(a: Archivo, vivos: Set<Seq<char>>) -> bool {
    hash_de(a) is Some && !vivos.contains(hash_de(a)->0)
}

/// ¿Es un archivo con un nombre en el que no se reconoce ningún hash?
pub open spec fn es_huerfano(a: Archivo) -> bool {
    nombre_de(a) is Some && hash_de(a) is None
}

/// El nombre de un archivo, si es texto.
pub(crate) fn nombre_en_texto(a: &Archivo) -> (r: Option<&str>)
    ensures
        match r {
            Some(nombre) => nombre_de(*a) == Some(nombre@),
            None => nombre_de(*a) is None,
        },
{
    if a.es_archivo {
        texto::desde_utf8(&a.nombre)
    } else {
        None
    }
}

/// La suma de los bytes de unos archivos.
pub open spec fn bytes_de(archivos: Seq<Archivo>) -> nat
    decreases archivos.len(),
{
    if archivos.len() == 0 {
        0
    } else {
        bytes_de(archivos.drop_last()) + archivos.last().bytes as nat
    }
}

/// Los archivos vivos.
pub open spec fn los_vivos(archivos: Seq<Archivo>, vivos: Set<Seq<char>>) -> Seq<Archivo> {
    archivos.filter(|a: Archivo| esta_vivo(a, vivos))
}

/// Los archivos muertos.
pub open spec fn los_muertos(archivos: Seq<Archivo>, vivos: Set<Seq<char>>) -> Seq<Archivo> {
    archivos.filter(|a: Archivo| esta_muerto(a, vivos))
}

/// Los archivos en los que no se reconoce ningún hash.
pub open spec fn los_huerfanos(archivos: Seq<Archivo>) -> Seq<Archivo> {
    archivos.filter(|a: Archivo| es_huerfano(a))
}

/// Las rutas de unos archivos de un directorio.
pub open spec fn rutas_en(dir: Seq<Seq<u8>>, archivos: Seq<Archivo>) -> Seq<Seq<Seq<u8>>> {
    archivos.map_values(|a: Archivo| dir.push(a.nombre@))
}

/// El `deps/` de un perfil, clasificado.
pub struct Clasificacion {
    pub live_bytes: u64,
    pub dead_bytes: u64,
    pub live_files: usize,
    pub dead_files: usize,
    /// Archivos sin hash reconocible.
    pub huerfanos: usize,
    /// La ruta de cada archivo muerto, si se pidieron.
    pub dead_paths: Vec<Ruta>,
}

/// Un tramo no pesa más que el total, y vivos y muertos no pesan más que el tramo.
proof fn lemma_pesos(archivos: Seq<Archivo>, vivos: Set<Seq<char>>, i: int)
    requires
        0 <= i <= archivos.len(),
    ensures
        bytes_de(archivos.take(i)) <= bytes_de(archivos),
        bytes_de(los_vivos(archivos.take(i), vivos)) + bytes_de(
            los_muertos(archivos.take(i), vivos),
        ) <= bytes_de(archivos.take(i)),
        los_vivos(archivos.take(i), vivos).len() + los_muertos(archivos.take(i), vivos).len()
            + los_huerfanos(archivos.take(i)).len() <= i,
    decreases archivos.len() - i, i,
{
    lemma_pesos_totales(archivos.take(i), vivos);
    if i == archivos.len() {
        assert(archivos.take(i) =~= archivos);
    } else {
        lemma_pesos(archivos, vivos, i + 1);
        assert(archivos.take(i + 1).drop_last() =~= archivos.take(i));
    }
}

/// Agregar un archivo agrega sus bytes.
proof fn lemma_bytes_push(archivos: Seq<Archivo>, a: Archivo)
    ensures
        bytes_de(archivos.push(a)) == bytes_de(archivos) + a.bytes,
{
    assert(archivos.push(a).drop_last() =~= archivos);
}

/// Cada archivo es a lo sumo una de las tres cosas: vivo, muerto o sin hash.
proof fn lemma_pesos_totales(archivos: Seq<Archivo>, vivos: Set<Seq<char>>)
    ensures
        bytes_de(los_vivos(archivos, vivos)) + bytes_de(los_muertos(archivos, vivos)) <= bytes_de(
            archivos,
        ),
        los_vivos(archivos, vivos).len() + los_muertos(archivos, vivos).len() + los_huerfanos(
            archivos,
        ).len() <= archivos.len(),
    decreases archivos.len(),
{
    reveal(Seq::filter);
    if archivos.len() > 0 {
        let antes = archivos.drop_last();
        let a = archivos.last();
        lemma_pesos_totales(antes, vivos);
        lemma_bytes_push(los_vivos(antes, vivos), a);
        lemma_bytes_push(los_muertos(antes, vivos), a);
    }
}

/// Clasifica los archivos de `deps/` y devuelve además la ruta de cada muerto.
pub fn clasificar_deps_con_rutas(
    deps_dir: &Ruta,
    archivos: &Vec<Archivo>,
    vivos: &Conjunto,
    recolectar: bool,
) -> (r: Clasificacion)
    requires
        bytes_de(archivos@) <= u64::MAX,
    ensures
        r.live_bytes == bytes_de(los_vivos(archivos@, vivos@)),
        r.dead_bytes == bytes_de(los_muertos(archivos@, vivos@)),
        r.live_files == los_vivos(archivos@, vivos@).len(),
        r.dead_files == los_muertos(archivos@, vivos@).len(),
        r.huerfanos == los_huerfanos(archivos@).len(),
        recolectar ==> orden::rutas_vistas(r.dead_paths@) == rutas_en(
            deps_dir@,
            los_muertos(archivos@, vivos@),
        ),
        !recolectar ==> r.dead_paths@.len() == 0,
{
    let mut live_bytes: u64 = 0;
    let mut dead_bytes: u64 = 0;
    let mut live_files: usize = 0;
    let mut dead_files: usize = 0;
    let mut huerfanos: usize = 0;
    let mut dead_paths: Vec<Ruta> = Vec::new();
    proof {
        reveal(Seq::filter);
        assert(rutas_en(deps_dir@, los_muertos(archivos@.take(0), vivos@)) =~= Seq::<
            Seq<Seq<u8>>,
        >::empty());
        assert(orden::rutas_vistas(dead_paths@) =~= Seq::<Seq<Seq<u8>>>::empty());
    }
    for i in 0..archivos.len()
        invariant
            bytes_de(archivos@) <= u64::MAX,
            live_bytes == bytes_de(los_vivos(archivos@.take(i as int), vivos@)),
            dead_bytes == bytes_de(los_muertos(archivos@.take(i as int), vivos@)),
            live_files == los_vivos(archivos@.take(i as int), vivos@).len(),
            dead_files == los_muertos(archivos@.take(i as int), vivos@).len(),
            huerfanos == los_huerfanos(archivos@.take(i as int)).len(),
            recolectar ==> orden::rutas_vistas(dead_paths@) == rutas_en(
                deps_dir@,
                los_muertos(archivos@.take(i as int), vivos@),
            ),
            !recolectar ==> dead_paths@.len() == 0,
    {
        let archivo = &archivos[i];
        let ghost antes = archivos@.take(i as int);
        let ghost rutas = dead_paths@;
        proof {
            reveal(Seq::filter);
            assert(archivos@.take(i + 1).drop_last() =~= antes);
            assert(archivos@.take(i + 1).last() == *archivo);
            lemma_pesos(archivos@, vivos@, i as int);
            lemma_pesos(archivos@, vivos@, i + 1);
            lemma_bytes_push(los_vivos(antes, vivos@), *archivo);
            lemma_bytes_push(los_muertos(antes, vivos@), *archivo);
        }
        if let Some(nombre) = nombre_en_texto(archivo) {
            match hash_de_artefacto(nombre) {
                Some(h) => {
                    if vivos.contains(h.as_str()) {
                        live_bytes += archivo.bytes;
                        live_files += 1;
                    } else {
                        dead_bytes += archivo.bytes;
                        dead_files += 1;
                        if recolectar {
                            dead_paths.push(deps_dir.hijo(&archivo.nombre));
                            assert(orden::rutas_vistas(dead_paths@) =~= orden::rutas_vistas(
                                rutas,
                            ).push(deps_dir@.push(archivo.nombre@)));
                            assert(rutas_en(
                                deps_dir@,
                                los_muertos(antes, vivos@).push(*archivo),
                            ) =~= rutas_en(deps_dir@, los_muertos(antes, vivos@)).push(
                                deps_dir@.push(archivo.nombre@),
                            ));
                        }
                    }
                },
                None => {
                    huerfanos += 1;
                },
            }
        }
    }
    assert(archivos@.take(archivos@.len() as int) =~= archivos@);
    Clasificacion { live_bytes, dead_bytes, live_files, dead_files, huerfanos, dead_paths }
}

/// Clasifica los archivos de `deps/`: bytes vivos y muertos, archivos vivos y
/// muertos, y archivos sin hash reconocible.
pub fn clasificar_deps(deps_dir: &Ruta, archivos: &Vec<Archivo>, vivos: &Conjunto) -> (r: (
    u64,
    u64,
    usize,
    usize,
    usize,
))
    requires
        bytes_de(archivos@) <= u64::MAX,
    ensures
        r.0 == bytes_de(los_vivos(archivos@, vivos@)),
        r.1 == bytes_de(los_muertos(archivos@, vivos@)),
        r.2 == los_vivos(archivos@, vivos@).len(),
        r.3 == los_muertos(archivos@, vivos@).len(),
        r.4 == los_huerfanos(archivos@).len(),
{
    let c = clasificar_deps_con_rutas(deps_dir, archivos, vivos, false);
    (c.live_bytes, c.dead_bytes, c.live_files, c.dead_files, c.huerfanos)
}

/// Resultado del mark para un perfil.
pub struct Report<'a> {
    pub units: usize,
    pub live_bytes: u64,
    pub dead_bytes: u64,
    pub dead_files: usize,
    pub live_files: usize,
    pub huerfanos: usize,
    pub dead_paths: Vec<Ruta>,
    /// El perfil no tiene ninguna unidad vigente del workspace: no se toca.
    pub sin_raices: bool,
    /// Sufijos de hash que la fase sweep debe preservar.
    pub vivos: &'a Conjunto,
}

/// ¿Hay entre las unidades alguna vigente del workspace?
pub open spec fn hay_del_workspace(
    units: Seq<UnidadVista>,
    members: Map<Seq<char>, Set<Seq<char>>>,
) -> bool {
    exists|i: int| 0 <= i < units.len() && mark::del_workspace(#[trigger] units[i], members)
}

fn tiene_del_workspace(profile: &Profile, members: &Miembros) -> (r: bool)
    ensures
        r == hay_del_workspace(profile@.units, members@),
{
    let ghost units = profile@.units;
    for i in 0..profile.units.len()
        invariant
            units == profile@.units,
            forall|j: int| 0 <= j < i ==> !mark::del_workspace(#[trigger] units[j], members@),
    {
        assert(units[i as int] == profile.units@[i as int]@);
        if mark::unidad_del_workspace(&profile.units[i], members) {
            return true;
        }
    }
    false
}

/// Clasifica el `deps/` de un perfil contra el conjunto vivo global.
///
/// Un perfil sin ninguna unidad del workspace no se toca: es más probable que
/// sea un perfil ajeno (sólo build scripts de dependencias) que basura.
pub fn analyze<'a>(
    profile: &Profile,
    archivos: &Vec<Archivo>,
    vivos: &'a Vivos,
    members: &Miembros,
    recolectar_rutas: bool,
) -> (r: Report<'a>)
    requires
        bytes_de(archivos@) <= u64::MAX,
    ensures
        r.units == profile.units@.len(),
        r.vivos@ == vivos.hashes@,
        r.sin_raices == !hay_del_workspace(profile@.units, members@),
        r.live_bytes == bytes_de(los_vivos(archivos@, vivos.hashes@)),
        r.live_files == los_vivos(archivos@, vivos.hashes@).len(),
        r.huerfanos == los_huerfanos(archivos@).len(),
        r.sin_raices ==> r.dead_bytes == 0 && r.dead_files == 0,
        !r.sin_raices ==> r.dead_bytes == bytes_de(los_muertos(archivos@, vivos.hashes@))
            && r.dead_files == los_muertos(archivos@, vivos.hashes@).len(),
        !r.sin_raices && recolectar_rutas ==> orden::rutas_vistas(r.dead_paths@) == rutas_en(
            profile.deps_dir@,
            los_muertos(archivos@, vivos.hashes@),
        ),
        r.sin_raices || !recolectar_rutas ==> r.dead_paths@.len() == 0,
{
    let units: usize = profile.units.len();
    if tiene_del_workspace(profile, members) {
        let c = clasificar_deps_con_rutas(
            &profile.deps_dir,
            archivos,
            &vivos.hashes,
            recolectar_rutas,
        );
        Report {
            units,
            live_bytes: c.live_bytes,
            dead_bytes: c.dead_bytes,
            dead_files: c.dead_files,
            live_files: c.live_files,
            huerfanos: c.huerfanos,
            dead_paths: c.dead_paths,
            sin_raices: false,
            vivos: &vivos.hashes,
        }
    } else {
        let (live_bytes, _, live_files, _, huerfanos) = clasificar_deps(
            &profile.deps_dir,
            archivos,
            &vivos.hashes,
        );
        Report {
            units,
            live_bytes,
            dead_bytes: 0,
            dead_files: 0,
            live_files,
            huerfanos,
            dead_paths: Vec::new(),
            sin_raices: true,
            vivos: &vivos.hashes,
        }
    }
}

/// Cada archivo con un nombre de texto es una sola cosa: está vivo, está muerto o
/// no tiene un hash reconocible. Lo demás no cuenta.
pub proof fn ley_cada_archivo_es_una_sola_cosa(a: Archivo, vivos: Set<Seq<char>>)
    ensures
        !(esta_vivo(a, vivos) && esta_muerto(a, vivos)),
        !(esta_vivo(a, vivos) && es_huerfano(a)),
        !(esta_muerto(a, vivos) && es_huerfano(a)),
        nombre_de(a) is Some <==> esta_vivo(a, vivos) || esta_muerto(a, vivos) || es_huerfano(a),
{
}

/// El hash de un artefacto es lo que va entre el último guion y el primer punto, tenga
/// el nombre lo que tenga delante y la extensión que tenga detrás; y no hay otra forma
/// de tener hash.
pub proof fn ley_el_hash_va_tras_el_guion(
    base: Seq<char>,
    hash: Seq<char>,
    extension: Seq<char>,
    nombre: Seq<char>,
)
    ensures
        !base.contains('.') && fingerprint::es_hash(hash) ==> hash_del_artefacto(
            base.push('-') + hash,
        ) == Some(hash),
        !base.contains('.') && fingerprint::es_hash(hash) ==> hash_del_artefacto(
            (base.push('-') + hash).push('.') + extension,
        ) == Some(hash),
        hash_del_artefacto(nombre) == Some(hash) ==> {
            &&& fingerprint::es_hash(hash)
            &&& exists|b: Seq<char>|
                {
                    ||| nombre == #[trigger] (b.push('-') + hash)
                    ||| exists|e: Seq<char>|
                        nombre == #[trigger] ((b.push('-') + hash).push('.') + e)
                }
        },
{
    if !base.contains('.') && fingerprint::es_hash(hash) {
        let tallo = base.push('-') + hash;
        fingerprint::lemma_un_hash_no_tiene_guiones(hash);
        assert(!tallo.contains('.')) by {
            if tallo.contains('.') {
                let k = choose|k: int| 0 <= k < tallo.len() && tallo[k] == '.';
                if k < base.len() {
                    assert(base[k] == '.');
                } else if k > base.len() {
                    assert(hash[k - base.len() - 1] == '.');
                }
            }
        }
        texto::ley_partir_deshace_unir(tallo, extension, '.');
        fingerprint::ley_paquete_guion_hash(base, hash, tallo);
    }
    if hash_del_artefacto(nombre) == Some(hash) {
        let tallo = antes_del_punto(nombre);
        let b = (fingerprint::paquete_y_hash(tallo)->0).0;
        fingerprint::ley_paquete_guion_hash(b, hash, tallo);
        texto::lemma_primera_posicion(nombre, '.');
        if let Some(i) = texto::primera_posicion(nombre, '.') {
            assert(nombre =~= nombre.take(i).push('.') + nombre.skip(i + 1));
            assert(nombre == (b.push('-') + hash).push('.') + nombre.skip(i + 1));
        } else {
            assert(nombre == b.push('-') + hash);
        }
    }
}

/// Qué es un archivo: está vivo si su hash lo está, muerto si no, y sin hash no es
/// ninguna de las dos cosas. Lo que no es un archivo, o no se llama con texto, no es
/// nada.
pub proof fn ley_vivo_o_muerto_segun_su_hash(
    a: Archivo,
    nombre: Seq<char>,
    vivos: Set<Seq<char>>,
)
    ensures
        a.es_archivo && a.nombre@ == encode_utf8(nombre) ==> {
            &&& hash_del_artefacto(nombre) matches Some(h) ==> {
                &&& esta_vivo(a, vivos) <==> vivos.contains(h)
                &&& esta_muerto(a, vivos) <==> !vivos.contains(h)
                &&& !es_huerfano(a)
            }
            &&& hash_del_artefacto(nombre) is None ==> es_huerfano(a) && !esta_vivo(a, vivos)
                && !esta_muerto(a, vivos)
        },
        !a.es_archivo || !valid_utf8(a.nombre@) ==> !esta_vivo(a, vivos) && !esta_muerto(a, vivos)
            && !es_huerfano(a),
{
    texto::ley_los_nombres_son_utf8(a.nombre@, nombre);
}

/// Clasificar es ir de uno en uno: cada archivo vivo, muerto o sin hash se agrega a los
/// suyos, con sus bytes y su ruta, y a ningunos otros.
pub proof fn ley_clasificar_de_uno_en_uno(
    dir: Seq<Seq<u8>>,
    archivos: Seq<Archivo>,
    a: Archivo,
    vivos: Set<Seq<char>>,
)
    ensures
        los_vivos(archivos.push(a), vivos) == if esta_vivo(a, vivos) {
            los_vivos(archivos, vivos).push(a)
        } else {
            los_vivos(archivos, vivos)
        },
        los_muertos(archivos.push(a), vivos) == if esta_muerto(a, vivos) {
            los_muertos(archivos, vivos).push(a)
        } else {
            los_muertos(archivos, vivos)
        },
        los_huerfanos(archivos.push(a)) == if es_huerfano(a) {
            los_huerfanos(archivos).push(a)
        } else {
            los_huerfanos(archivos)
        },
        los_vivos(Seq::empty(), vivos).len() == 0,
        los_muertos(Seq::empty(), vivos).len() == 0,
        los_huerfanos(Seq::empty()).len() == 0,
        bytes_de(archivos.push(a)) == bytes_de(archivos) + a.bytes,
        bytes_de(Seq::empty()) == 0,
        rutas_en(dir, archivos.push(a)) == rutas_en(dir, archivos).push(dir.push(a.nombre@)),
        rutas_en(dir, Seq::empty()).len() == 0,
{
    reveal(Seq::filter);
    assert(archivos.push(a).drop_last() =~= archivos);
    assert(rutas_en(dir, archivos.push(a)) =~= rutas_en(dir, archivos).push(dir.push(a.nombre@)));
}

/// Un perfil es del workspace si lo es alguna de sus unidades: su paquete es un
/// miembro y su stem el de un target que declara.
pub proof fn ley_que_perfiles_son_del_workspace(
    units: Seq<UnidadVista>,
    members: Map<Seq<char>, Set<Seq<char>>>,
    i: int,
)
    ensures
        0 <= i < units.len() && members.contains_key(units[i].pkg) && mark::vigente(
            units[i].stem,
            members[units[i].pkg],
        ) ==> hay_del_workspace(units, members),
        hay_del_workspace(units, members) ==> exists|j: int|
            0 <= j < units.len() && members.contains_key((#[trigger] units[j]).pkg)
                && mark::vigente(units[j].stem, members[units[j].pkg]),
{
    if 0 <= i < units.len() {
        assert(mark::del_workspace(units[i], members) == (members.contains_key(units[i].pkg)
            && mark::vigente(units[i].stem, members[units[i].pkg])));
    }
}

} // verus!
