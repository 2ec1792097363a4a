//! Lo que el barrido garantiza: qué se saca, qué no se toca nunca y qué pasa con
//! lo que va a la papelera.

use crate::artefacto::{self, Archivo};
use crate::fingerprint::{self, PerfilVista, UnidadVista};
use crate::mark;
use crate::perfiles::{self, Nodo};
use crate::ruta;
use crate::sweep::{
    self, Arbol, Carpeta, EntradaVista, FotoDePerfil, Lote, Mode, PlanVista, TareaVista, TRASH_DIR,
};
use crate::texto;
use vstd::prelude::*;
use vstd::string::*;
use vstd::utf8::*;

verus! {

/// ¿Está la ruta entre las de unas entradas?
pub open spec fn saca(entradas: Seq<EntradaVista>, path: Seq<Seq<u8>>) -> bool {
    exists|i: int| 0 <= i < entradas.len() && (#[trigger] entradas[i]).path == path
}

/// Dos textos distintos se codifican en bytes distintos.
proof fn lemma_codificacion_inyectiva(a: Seq<char>, b: Seq<char>)
    requires
        a != b,
    ensures
        encode_utf8(a) != encode_utf8(b),
{
    encode_utf8_decode_utf8(a);
    encode_utf8_decode_utf8(b);
}

/// Las zonas de un perfil tienen nombres distintos.
proof fn lemma_zonas_distintas()
    ensures
        encode_utf8("deps"@) != encode_utf8(".fingerprint"@),
        encode_utf8("deps"@) != encode_utf8("build"@),
        encode_utf8("build"@) != encode_utf8(".fingerprint"@),
{
    reveal_strlit("deps");
    reveal_strlit("build");
    reveal_strlit(".fingerprint");
    lemma_codificacion_inyectiva("deps"@, ".fingerprint"@);
    assert("deps"@[0] != "build"@[0]);
    lemma_codificacion_inyectiva("deps"@, "build"@);
    lemma_codificacion_inyectiva("build"@, ".fingerprint"@);
}

/// Las entradas que salen de unos archivos filtrados son las de los que cumplen.
proof fn lemma_entradas_de_filtrados(
    dir: Seq<Seq<u8>>,
    archivos: Seq<Archivo>,
    cual: spec_fn(Archivo) -> bool,
    e: EntradaVista,
)
    ensures
        sweep::entradas_de_archivos(dir, archivos.filter(cual)).contains(e) <==> exists|i: int|
            0 <= i < archivos.len() && cual(#[trigger] archivos[i]) && e
                == sweep::entrada_de_archivo(dir, archivos[i]),
{
    let filtrados = archivos.filter(cual);
    let entradas = sweep::entradas_de_archivos(dir, filtrados);
    if entradas.contains(e) {
        let k = choose|k: int| 0 <= k < entradas.len() && entradas[k] == e;
        archivos.lemma_filter_pred(cual, k);
        assert(filtrados.contains(filtrados[k]));
        archivos.lemma_filter_contains_rev(cual, filtrados[k]);
        let i = choose|i: int| 0 <= i < archivos.len() && archivos[i] == filtrados[k];
        assert(cual(archivos[i]));
    }
    if exists|i: int|
        0 <= i < archivos.len() && cual(#[trigger] archivos[i]) && e == sweep::entrada_de_archivo(
            dir,
            archivos[i],
        ) {
        let i = choose|i: int|
            0 <= i < archivos.len() && cual(#[trigger] archivos[i]) && e
                == sweep::entrada_de_archivo(dir, archivos[i]);
        archivos.lemma_filter_contains(cual, i);
        let k = choose|k: int| 0 <= k < filtrados.len() && filtrados[k] == archivos[i];
        assert(entradas[k] == e);
    }
}

/// Las entradas que salen de unas carpetas filtradas son las de las que cumplen.
proof fn lemma_entradas_de_carpetas_filtradas(
    dir: Seq<Seq<u8>>,
    carpetas: Seq<Carpeta>,
    vivos: Set<Seq<char>>,
    e: EntradaVista,
)
    ensures
        sweep::entradas_de_carpetas(
            dir,
            sweep::las_carpetas_muertas(carpetas, vivos),
        ).contains(e) <==> exists|i: int|
            0 <= i < carpetas.len() && sweep::carpeta_muerta(#[trigger] carpetas[i], vivos) && e
                == sweep::entrada_de_carpeta(dir, carpetas[i]),
{
    let cual = |c: Carpeta| sweep::carpeta_muerta(c, vivos);
    let filtradas = carpetas.filter(cual);
    let entradas = sweep::entradas_de_carpetas(dir, filtradas);
    if entradas.contains(e) {
        let k = choose|k: int| 0 <= k < entradas.len() && entradas[k] == e;
        carpetas.lemma_filter_pred(cual, k);
        assert(filtradas.contains(filtradas[k]));
        carpetas.lemma_filter_contains_rev(cual, filtradas[k]);
        let i = choose|i: int| 0 <= i < carpetas.len() && carpetas[i] == filtradas[k];
        assert(sweep::carpeta_muerta(carpetas[i], vivos));
    }
    if exists|i: int|
        0 <= i < carpetas.len() && sweep::carpeta_muerta(#[trigger] carpetas[i], vivos) && e
            == sweep::entrada_de_carpeta(dir, carpetas[i]) {
        let i = choose|i: int|
            0 <= i < carpetas.len() && sweep::carpeta_muerta(#[trigger] carpetas[i], vivos) && e
                == sweep::entrada_de_carpeta(dir, carpetas[i]);
        carpetas.lemma_filter_contains(cual, i);
        let k = choose|k: int| 0 <= k < filtradas.len() && filtradas[k] == carpetas[i];
        assert(entradas[k] == e);
    }
}

/// De `deps/` sale exactamente lo muerto, y de `.fingerprint/` y de `build/`
/// exactamente los directorios de unidades que no están vivas.
pub proof fn ley_sale_exactamente_lo_muerto(
    dir: Seq<Seq<u8>>,
    foto: FotoDePerfil,
    vivos: Set<Seq<char>>,
    incremental: bool,
    codegen: bool,
    e: EntradaVista,
)
    ensures
        ({
            let plan = sweep::plan_de(dir, foto, vivos, incremental, codegen);
            &&& plan.deps.contains(e) <==> exists|i: int|
                0 <= i < foto.deps@.len() && artefacto::esta_muerto(#[trigger] foto.deps@[i], vivos)
                    && e == sweep::entrada_de_archivo(
                    dir.push(encode_utf8("deps"@)),
                    foto.deps@[i],
                )
            &&& plan.fingerprints.contains(e) <==> exists|i: int|
                0 <= i < foto.fingerprints@.len() && sweep::carpeta_muerta(
                    #[trigger] foto.fingerprints@[i],
                    vivos,
                ) && e == sweep::entrada_de_carpeta(
                    dir.push(encode_utf8(".fingerprint"@)),
                    foto.fingerprints@[i],
                )
            &&& plan.builds.contains(e) <==> exists|i: int|
                0 <= i < foto.builds@.len() && sweep::carpeta_muerta(
                    #[trigger] foto.builds@[i],
                    vivos,
                ) && e == sweep::entrada_de_carpeta(
                    dir.push(encode_utf8("build"@)),
                    foto.builds@[i],
                )
        }),
{
    lemma_entradas_de_filtrados(
        dir.push(encode_utf8("deps"@)),
        foto.deps@,
        |a: Archivo| artefacto::esta_muerto(a, vivos),
        e,
    );
    lemma_entradas_de_carpetas_filtradas(
        dir.push(encode_utf8(".fingerprint"@)),
        foto.fingerprints@,
        vivos,
        e,
    );
    lemma_entradas_de_carpetas_filtradas(
        dir.push(encode_utf8("build"@)),
        foto.builds@,
        vivos,
        e,
    );
}

/// De dónde sale una ruta que saca el plan: de qué zona, y de qué elemento.
proof fn lemma_de_donde_sale(
    dir: Seq<Seq<u8>>,
    foto: FotoDePerfil,
    vivos: Set<Seq<char>>,
    incremental: bool,
    codegen: bool,
    path: Seq<Seq<u8>>,
)
    requires
        saca(sweep::plan_de(dir, foto, vivos, incremental, codegen).entradas(), path),
    ensures
        ({
            let deps = dir.push(encode_utf8("deps"@));
            let fingerprints = dir.push(encode_utf8(".fingerprint"@));
            let builds = dir.push(encode_utf8("build"@));
            ||| exists|i: int|
                0 <= i < foto.deps@.len() && artefacto::esta_muerto(#[trigger] foto.deps@[i], vivos)
                    && path == deps.push(foto.deps@[i].nombre@)
            ||| codegen && exists|i: int|
                0 <= i < foto.deps@.len() && sweep::es_codegen_vivo(#[trigger] foto.deps@[i], vivos)
                    && path == deps.push(foto.deps@[i].nombre@)
            ||| exists|i: int|
                0 <= i < foto.fingerprints@.len() && sweep::carpeta_muerta(
                    #[trigger] foto.fingerprints@[i],
                    vivos,
                ) && path == fingerprints.push(foto.fingerprints@[i].nombre@)
            ||| exists|i: int|
                0 <= i < foto.builds@.len() && sweep::carpeta_muerta(
                    #[trigger] foto.builds@[i],
                    vivos,
                ) && path == builds.push(foto.builds@[i].nombre@)
            ||| incremental && foto.incremental is Some && path == dir.push(
                encode_utf8("incremental"@),
            )
        }),
{
    let plan = sweep::plan_de(dir, foto, vivos, incremental, codegen);
    let entradas = plan.entradas();
    let k = choose|k: int| 0 <= k < entradas.len() && (#[trigger] entradas[k]).path == path;
    let e = entradas[k];
    ley_sale_exactamente_lo_muerto(dir, foto, vivos, incremental, codegen, e);
    lemma_entradas_de_filtrados(
        dir.push(encode_utf8("deps"@)),
        foto.deps@,
        |a: Archivo| sweep::es_codegen_vivo(a, vivos),
        e,
    );
    let a = plan.deps.len();
    let b = a + plan.fingerprints.len();
    let c = b + plan.builds.len();
    let d = c + plan.incremental.len();
    if k < a {
        assert(plan.deps[k] == e);
        assert(plan.deps.contains(e));
    } else if k < b {
        assert(plan.fingerprints[k - a] == e);
        assert(plan.fingerprints.contains(e));
    } else if k < c {
        assert(plan.builds[k - b] == e);
        assert(plan.builds.contains(e));
    } else if k < d {
        assert(plan.incremental[k - c] == e);
    } else {
        assert(plan.codegen[k - d] == e);
        assert(plan.codegen.contains(e));
    }
}

/// Dos rutas de dos elementos son la misma sólo si son el mismo nombre en el mismo
/// directorio.
proof fn lemma_misma_ruta(dir: Seq<Seq<u8>>, za: Seq<u8>, a: Seq<u8>, zb: Seq<u8>, b: Seq<u8>)
    requires
        dir.push(za).push(a) == dir.push(zb).push(b),
    ensures
        za == zb,
        a == b,
{
    let x = dir.push(za).push(a);
    let y = dir.push(zb).push(b);
    assert(x[dir.len() as int] == za && y[dir.len() as int] == zb);
    assert(x.last() == a && y.last() == b);
}

/// Un archivo de `deps/` que no está muerto no se toca: ni los de las unidades
/// vivas, ni los que no tienen un hash reconocible. La única excepción son los
/// objetos intermedios de rustc, y sólo si se pidió barrerlos.
pub proof fn ley_lo_que_no_esta_muerto_no_se_toca(
    dir: Seq<Seq<u8>>,
    foto: FotoDePerfil,
    vivos: Set<Seq<char>>,
    incremental: bool,
    codegen: bool,
    a: Archivo,
)
    requires
        a.es_archivo,
        !artefacto::esta_muerto(a, vivos),
        codegen ==> !sweep::es_codegen_vivo(a, vivos),
    ensures
        !saca(
            sweep::plan_de(dir, foto, vivos, incremental, codegen).entradas(),
            dir.push(encode_utf8("deps"@)).push(a.nombre@),
        ),
{
    let path = dir.push(encode_utf8("deps"@)).push(a.nombre@);
    if saca(sweep::plan_de(dir, foto, vivos, incremental, codegen).entradas(), path) {
        lemma_de_donde_sale(dir, foto, vivos, incremental, codegen, path);
        lemma_zonas_distintas();
        let zona = encode_utf8("deps"@);
        assert forall|otra: Seq<u8>, n: Seq<u8>| path == #[trigger] dir.push(otra).push(
            n,
        ) implies zona == otra && n == a.nombre@ by {
            lemma_misma_ruta(dir, zona, a.nombre@, otra, n);
        }
        assert(path.len() == dir.len() + 2);
        if exists|i: int|
            0 <= i < foto.deps@.len() && artefacto::esta_muerto(#[trigger] foto.deps@[i], vivos)
                && path == dir.push(zona).push(foto.deps@[i].nombre@) {
            let i = choose|i: int|
                0 <= i < foto.deps@.len() && artefacto::esta_muerto(#[trigger] foto.deps@[i], vivos)
                    && path == dir.push(zona).push(foto.deps@[i].nombre@);
            assert(artefacto::nombre_de(a) == artefacto::nombre_de(foto.deps@[i]));
        } else if codegen && exists|i: int|
            0 <= i < foto.deps@.len() && sweep::es_codegen_vivo(#[trigger] foto.deps@[i], vivos)
                && path == dir.push(zona).push(foto.deps@[i].nombre@) {
            let i = choose|i: int|
                0 <= i < foto.deps@.len() && sweep::es_codegen_vivo(#[trigger] foto.deps@[i], vivos)
                    && path == dir.push(zona).push(foto.deps@[i].nombre@);
            assert(artefacto::nombre_de(a) == artefacto::nombre_de(foto.deps@[i]));
        }
    }
}

/// El directorio de una unidad viva no se toca, ni en `.fingerprint/` ni en
/// `build/`; tampoco uno que no tenga un hash reconocible en el nombre.
pub proof fn ley_un_directorio_vivo_no_se_toca(
    dir: Seq<Seq<u8>>,
    foto: FotoDePerfil,
    vivos: Set<Seq<char>>,
    incremental: bool,
    codegen: bool,
    nombre: Seq<u8>,
)
    requires
        !sweep::es_nombre_muerto(nombre, vivos),
    ensures
        ({
            let plan = sweep::plan_de(dir, foto, vivos, incremental, codegen);
            &&& !saca(plan.entradas(), dir.push(encode_utf8(".fingerprint"@)).push(nombre))
            &&& !saca(plan.entradas(), dir.push(encode_utf8("build"@)).push(nombre))
        }),
{
    let entradas = sweep::plan_de(dir, foto, vivos, incremental, codegen).entradas();
    lemma_zonas_distintas();
    let huellas = encode_utf8(".fingerprint"@);
    let builds = encode_utf8("build"@);
    assert forall|zona: Seq<u8>, otra: Seq<u8>, n: Seq<u8>|
        dir.push(zona).push(nombre) == #[trigger] dir.push(otra).push(n) implies #[trigger] dir.push(
        zona,
    ) == dir.push(zona) && zona == otra && n == nombre by {
        lemma_misma_ruta(dir, zona, nombre, otra, n);
    }
    if saca(entradas, dir.push(huellas).push(nombre)) {
        lemma_de_donde_sale(
            dir,
            foto,
            vivos,
            incremental,
            codegen,
            dir.push(huellas).push(nombre),
        );
        assert(dir.push(huellas).push(nombre).len() == dir.len() + 2);
    }
    if saca(entradas, dir.push(builds).push(nombre)) {
        lemma_de_donde_sale(dir, foto, vivos, incremental, codegen, dir.push(builds).push(nombre));
        assert(dir.push(builds).push(nombre).len() == dir.len() + 2);
    }
}

/// ¿Es el nombre `<paquete>-<hash>`, con ese hash?
pub open spec fn lleva_hash(nombre: Seq<u8>, hash: Seq<char>) -> bool {
    match texto::texto_de_bytes(nombre) {
        Some(nombre) => match fingerprint::paquete_y_hash(nombre) {
            Some((_, h)) => h == hash,
            None => false,
        },
        None => false,
    }
}

/// Lo que necesita el build no se toca: ni el artefacto de una unidad viva, esté
/// en el perfil que esté, ni los directorios que llevan su hash. Viva es toda
/// unidad a la que se llega desde una vigente del workspace siguiendo el grafo.
pub proof fn ley_lo_que_usa_el_build_no_se_toca(
    units: Seq<UnidadVista>,
    members: Map<Seq<char>, Set<Seq<char>>>,
    keep_configs: nat,
    i: int,
    dir: Seq<Seq<u8>>,
    foto: FotoDePerfil,
    incremental: bool,
    codegen: bool,
    a: Archivo,
    nombre: Seq<u8>,
)
    requires
        0 <= i < units.len(),
        mark::vivas(units, members, keep_configs).contains(i),
    ensures
        ({
            let vivos = mark::hashes_vivos(units, members, keep_configs);
            let plan = sweep::plan_de(dir, foto, vivos, incremental, codegen);
            let hash = units[i].filename_hash;
            &&& artefacto::hash_de(a) == Some(hash) && !(codegen && texto::termina_en(
                artefacto::nombre_de(a)->0,
                ".rcgu.o"@,
            )) ==> !saca(plan.entradas(), dir.push(encode_utf8("deps"@)).push(a.nombre@))
            &&& lleva_hash(nombre, hash) ==> {
                &&& !saca(plan.entradas(), dir.push(encode_utf8(".fingerprint"@)).push(nombre))
                &&& !saca(plan.entradas(), dir.push(encode_utf8("build"@)).push(nombre))
            }
        }),
{
    let vivos = mark::hashes_vivos(units, members, keep_configs);
    let hash = units[i].filename_hash;
    assert(vivos.contains(hash));
    if artefacto::hash_de(a) == Some(hash) && !(codegen && texto::termina_en(
        artefacto::nombre_de(a)->0,
        ".rcgu.o"@,
    )) {
        ley_lo_que_no_esta_muerto_no_se_toca(dir, foto, vivos, incremental, codegen, a);
    }
    if lleva_hash(nombre, hash) {
        ley_un_directorio_vivo_no_se_toca(dir, foto, vivos, incremental, codegen, nombre);
    }
}

/// Ningún archivo sale dos veces, una por muerto y otra por intermedio.
pub proof fn ley_nada_sale_por_dos_lados(
    dir: Seq<Seq<u8>>,
    foto: FotoDePerfil,
    vivos: Set<Seq<char>>,
    incremental: bool,
    codegen: bool,
    path: Seq<Seq<u8>>,
)
    ensures
        ({
            let plan = sweep::plan_de(dir, foto, vivos, incremental, codegen);
            !(saca(plan.deps, path) && saca(plan.codegen, path))
        }),
{
    let plan = sweep::plan_de(dir, foto, vivos, incremental, codegen);
    if saca(plan.deps, path) && saca(plan.codegen, path) {
        let j = choose|j: int| 0 <= j < plan.deps.len() && (#[trigger] plan.deps[j]).path == path;
        let k = choose|k: int|
            0 <= k < plan.codegen.len() && (#[trigger] plan.codegen[k]).path == path;
        let zona = encode_utf8("deps"@);
        lemma_entradas_de_filtrados(
            dir.push(zona),
            foto.deps@,
            |a: Archivo| artefacto::esta_muerto(a, vivos),
            plan.deps[j],
        );
        lemma_entradas_de_filtrados(
            dir.push(zona),
            foto.deps@,
            |a: Archivo| sweep::es_codegen_vivo(a, vivos),
            plan.codegen[k],
        );
        assert(plan.deps.contains(plan.deps[j]));
        assert(plan.codegen.contains(plan.codegen[k]));
        let m = choose|m: int|
            0 <= m < foto.deps@.len() && artefacto::esta_muerto(#[trigger] foto.deps@[m], vivos)
                && plan.deps[j] == sweep::entrada_de_archivo(dir.push(zona), foto.deps@[m]);
        let n = choose|n: int|
            0 <= n < foto.deps@.len() && sweep::es_codegen_vivo(#[trigger] foto.deps@[n], vivos)
                && plan.codegen[k] == sweep::entrada_de_archivo(dir.push(zona), foto.deps@[n]);
        lemma_misma_ruta(dir, zona, foto.deps@[m].nombre@, zona, foto.deps@[n].nombre@);
        assert(artefacto::nombre_de(foto.deps@[m]) == artefacto::nombre_de(foto.deps@[n]));
    }
}

/// Si se pide barrer los intermedios salen todos, de unidades vivas o muertas.
pub proof fn ley_salen_todos_los_intermedios(
    dir: Seq<Seq<u8>>,
    foto: FotoDePerfil,
    vivos: Set<Seq<char>>,
    incremental: bool,
    i: int,
)
    requires
        0 <= i < foto.deps@.len(),
        artefacto::nombre_de(foto.deps@[i]) is Some,
        texto::termina_en(artefacto::nombre_de(foto.deps@[i])->0, ".rcgu.o"@),
    ensures
        ({
            let plan = sweep::plan_de(dir, foto, vivos, incremental, true);
            let e = sweep::entrada_de_archivo(dir.push(encode_utf8("deps"@)), foto.deps@[i]);
            plan.deps.contains(e) || plan.codegen.contains(e)
        }),
{
    let deps = dir.push(encode_utf8("deps"@));
    let a = foto.deps@[i];
    let e = sweep::entrada_de_archivo(deps, a);
    ley_sale_exactamente_lo_muerto(dir, foto, vivos, incremental, true, e);
    lemma_entradas_de_filtrados(
        deps,
        foto.deps@,
        |a: Archivo| sweep::es_codegen_vivo(a, vivos),
        e,
    );
    assert(artefacto::esta_muerto(foto.deps@[i], vivos) || sweep::es_codegen_vivo(
        foto.deps@[i],
        vivos,
    ));
}

/// Los bytes de unos archivos son los de las entradas que les corresponden.
proof fn lemma_mismos_bytes(dir: Seq<Seq<u8>>, archivos: Seq<Archivo>)
    ensures
        sweep::bytes_de(sweep::entradas_de_archivos(dir, archivos)) == artefacto::bytes_de(archivos),
    decreases archivos.len(),
{
    let entradas = sweep::entradas_de_archivos(dir, archivos);
    if archivos.len() > 0 {
        lemma_mismos_bytes(dir, archivos.drop_last());
        assert(entradas.drop_last() =~= sweep::entradas_de_archivos(dir, archivos.drop_last()));
    }
}

/// Lo que se informa de `deps/` como muerto es lo que el plan saca de ahí: los
/// mismos archivos, los mismos bytes y las mismas rutas.
pub proof fn ley_el_plan_saca_lo_que_se_informa(
    dir: Seq<Seq<u8>>,
    foto: FotoDePerfil,
    vivos: Set<Seq<char>>,
    incremental: bool,
    codegen: bool,
)
    ensures
        ({
            let plan = sweep::plan_de(dir, foto, vivos, incremental, codegen);
            let muertos = artefacto::los_muertos(foto.deps@, vivos);
            &&& plan.deps.len() == muertos.len()
            &&& sweep::bytes_de(plan.deps) == artefacto::bytes_de(muertos)
            &&& plan.deps.map_values(|e: EntradaVista| e.path) == artefacto::rutas_en(
                dir.push(encode_utf8("deps"@)),
                muertos,
            )
        }),
{
    let deps = dir.push(encode_utf8("deps"@));
    let muertos = artefacto::los_muertos(foto.deps@, vivos);
    lemma_mismos_bytes(deps, muertos);
    assert(sweep::entradas_de_archivos(deps, muertos).map_values(|e: EntradaVista| e.path)
        =~= artefacto::rutas_en(deps, muertos));
}

/// Cuanto más está vivo, menos sale de las zonas que se clasifican por hash.
pub proof fn ley_mas_vivos_menos_muertos(
    dir: Seq<Seq<u8>>,
    foto: FotoDePerfil,
    pocos: Set<Seq<char>>,
    muchos: Set<Seq<char>>,
    incremental: bool,
    codegen: bool,
    e: EntradaVista,
)
    requires
        pocos.subset_of(muchos),
    ensures
        ({
            let mas = sweep::plan_de(dir, foto, pocos, incremental, codegen);
            let menos = sweep::plan_de(dir, foto, muchos, incremental, codegen);
            &&& menos.deps.contains(e) ==> mas.deps.contains(e)
            &&& menos.fingerprints.contains(e) ==> mas.fingerprints.contains(e)
            &&& menos.builds.contains(e) ==> mas.builds.contains(e)
        }),
{
    ley_sale_exactamente_lo_muerto(dir, foto, pocos, incremental, codegen, e);
    ley_sale_exactamente_lo_muerto(dir, foto, muchos, incremental, codegen, e);
    let menos = sweep::plan_de(dir, foto, muchos, incremental, codegen);
    if menos.deps.contains(e) {
        let i = choose|i: int|
            0 <= i < foto.deps@.len() && artefacto::esta_muerto(#[trigger] foto.deps@[i], muchos)
                && e == sweep::entrada_de_archivo(dir.push(encode_utf8("deps"@)), foto.deps@[i]);
        assert(artefacto::esta_muerto(foto.deps@[i], pocos));
    }
    if menos.fingerprints.contains(e) {
        let i = choose|i: int|
            0 <= i < foto.fingerprints@.len() && sweep::carpeta_muerta(
                #[trigger] foto.fingerprints@[i],
                muchos,
            ) && e == sweep::entrada_de_carpeta(
                dir.push(encode_utf8(".fingerprint"@)),
                foto.fingerprints@[i],
            );
        assert(sweep::carpeta_muerta(foto.fingerprints@[i], pocos));
    }
    if menos.builds.contains(e) {
        let i = choose|i: int|
            0 <= i < foto.builds@.len() && sweep::carpeta_muerta(#[trigger] foto.builds@[i], muchos)
                && e == sweep::entrada_de_carpeta(dir.push(encode_utf8("build"@)), foto.builds@[i]);
        assert(sweep::carpeta_muerta(foto.builds@[i], pocos));
    }
}

/// En simulación no se toca nada: no hay ninguna tarea.
pub proof fn ley_simular_no_toca_nada(plan: PlanVista, target_root: Seq<Seq<u8>>, ts: u64)
    ensures
        sweep::tareas_de(plan, target_root, Mode::DryRun, ts) == Seq::<TareaVista>::empty(),
{
}

/// Sólo se toca lo que está en el plan: cada tarea es la de una de sus entradas.
pub proof fn ley_solo_se_toca_lo_planificado(
    plan: PlanVista,
    target_root: Seq<Seq<u8>>,
    mode: Mode,
    ts: u64,
    k: int,
)
    requires
        0 <= k < sweep::tareas_de(plan, target_root, mode, ts).len(),
    ensures
        match sweep::tareas_de(plan, target_root, mode, ts)[k] {
            TareaVista::Mover { origen, .. } => saca(plan.entradas(), origen),
            TareaVista::Borrar(path) => saca(plan.entradas(), path),
            TareaVista::Fuera => true,
        },
{
    let e = plan.entradas()[k];
    assert(saca(plan.entradas(), e.path));
}

/// Mover a la papelera preserva la ruta relativa: lo movido queda dentro del lote,
/// y copiar el lote de vuelta sobre `target/` lo deja donde estaba.
pub proof fn ley_la_papelera_preserva_la_ruta(
    path: Seq<Seq<u8>>,
    target_root: Seq<Seq<u8>>,
    ts: u64,
)
    requires
        ruta::cuelga_de(path, target_root),
    ensures
        ({
            let lote = sweep::lote_de(target_root, ts);
            let destino = sweep::destino_en(path, target_root, lote);
            &&& sweep::mudanza(path, target_root, lote) == (TareaVista::Mover {
                origen: path,
                destino,
            })
            &&& ruta::cuelga_de(destino, lote)
            &&& ruta::cuelga_de(destino, sweep::papelera_de(target_root))
            &&& target_root + destino.skip(lote.len() as int) == path
        }),
{
    let lote = sweep::lote_de(target_root, ts);
    let destino = sweep::destino_en(path, target_root, lote);
    assert(destino.take(lote.len() as int) =~= lote);
    assert(destino.take(lote.len() - 1) =~= sweep::papelera_de(target_root));
    assert(target_root + destino.skip(lote.len() as int) =~= path);
}

/// Dos cosas distintas no van a parar al mismo sitio.
pub proof fn ley_en_la_papelera_nada_se_pisa(
    a: Seq<Seq<u8>>,
    b: Seq<Seq<u8>>,
    target_root: Seq<Seq<u8>>,
    ts: u64,
)
    requires
        ruta::cuelga_de(a, target_root),
        ruta::cuelga_de(b, target_root),
        a != b,
    ensures
        sweep::destino_en(a, target_root, sweep::lote_de(target_root, ts)) != sweep::destino_en(
            b,
            target_root,
            sweep::lote_de(target_root, ts),
        ),
{
    ley_la_papelera_preserva_la_ruta(a, target_root, ts);
    ley_la_papelera_preserva_la_ruta(b, target_root, ts);
}

/// Lo que sale del plan de un perfil de `target/` siempre se puede mover.
pub proof fn ley_lo_planificado_cabe_en_la_papelera(
    dir: Seq<Seq<u8>>,
    foto: FotoDePerfil,
    vivos: Set<Seq<char>>,
    incremental: bool,
    codegen: bool,
    target_root: Seq<Seq<u8>>,
    ts: u64,
    k: int,
)
    requires
        ruta::cuelga_de(dir, target_root),
        0 <= k < sweep::plan_de(dir, foto, vivos, incremental, codegen).entradas().len(),
    ensures
        ({
            let plan = sweep::plan_de(dir, foto, vivos, incremental, codegen);
            &&& sweep::tareas_de(plan, target_root, Mode::Trash, ts).len() == plan.entradas().len()
            &&& sweep::tareas_de(plan, target_root, Mode::Trash, ts)[k] is Mover
        }),
{
    let plan = sweep::plan_de(dir, foto, vivos, incremental, codegen);
    let path = plan.entradas()[k].path;
    assert(saca(plan.entradas(), path));
    lemma_de_donde_sale(dir, foto, vivos, incremental, codegen, path);
    assert(path.take(dir.len() as int) =~= dir);
    assert(path.take(target_root.len() as int) =~= dir.take(target_root.len() as int));
}

/// La papelera no se barre: nada de lo que saca el plan de un perfil hallado bajo
/// `target/` está dentro de ella.
pub proof fn ley_la_papelera_no_se_barre(
    target: Seq<Seq<u8>>,
    hijos: Seq<Nodo>,
    p: PerfilVista,
    foto: FotoDePerfil,
    vivos: Set<Seq<char>>,
    incremental: bool,
    codegen: bool,
    path: Seq<Seq<u8>>,
)
    requires
        perfiles::perfiles_de(target, hijos).contains(p),
        saca(sweep::plan_de(p.dir, foto, vivos, incremental, codegen).entradas(), path),
    ensures
        !ruta::cuelga_de(path, sweep::papelera_de(target)),
{
    perfiles::ley_la_papelera_no_tiene_perfiles(target, hijos, p);
    lemma_de_donde_sale(p.dir, foto, vivos, incremental, codegen, path);
    let n = target.len() as int;
    let trash = encode_utf8(TRASH_DIR@);
    reveal_strlit("deps");
    reveal_strlit("build");
    reveal_strlit(".fingerprint");
    reveal_strlit("incremental");
    reveal_strlit(".reap-trash");
    assert(TRASH_DIR@ == ".reap-trash"@);
    assert(".fingerprint"@[1] != ".reap-trash"@[1]);
    assert("incremental"@[0] != ".reap-trash"@[0]);
    lemma_codificacion_inyectiva("deps"@, TRASH_DIR@);
    lemma_codificacion_inyectiva("build"@, TRASH_DIR@);
    lemma_codificacion_inyectiva(".fingerprint"@, TRASH_DIR@);
    lemma_codificacion_inyectiva("incremental"@, TRASH_DIR@);
    if ruta::cuelga_de(path, sweep::papelera_de(target)) {
        assert(path.take(n + 1)[n] == trash);
        if p.dir.len() > n {
            assert(p.dir.skip(n)[0] == path[n]);
            assert(p.dir.skip(n).contains(trash));
        } else {
            assert(path[n] != trash);
        }
    }
}

/// La purga respeta la retención: un lote se purga si y sólo si hace más de
/// `retener` segundos que se hizo. Uno recién hecho no se purga nunca.
pub proof fn ley_la_purga_respeta_la_retencion(
    target_root: Seq<Seq<u8>>,
    ts: u64,
    ahora: u64,
    retener: u64,
)
    ensures
        sweep::esta_vencido(sweep::lote_de(target_root, ts).last(), ahora, retener) == (ahora - ts
            > retener),
        ahora <= ts ==> !sweep::esta_vencido(
            sweep::lote_de(target_root, ts).last(),
            ahora,
            retener,
        ),
{
    let nombre = texto::decimal(ts as nat);
    encode_utf8_valid_utf8(nombre);
    encode_utf8_decode_utf8(nombre);
    texto::ley_decimal_ida_y_vuelta(ts as nat, u64::MAX as nat);
}

/// Retener más purga menos.
pub proof fn ley_retener_mas_purga_menos(nombre: Seq<u8>, ahora: u64, menos: u64, mas: u64)
    requires
        menos <= mas,
        sweep::esta_vencido(nombre, ahora, mas),
    ensures
        sweep::esta_vencido(nombre, ahora, menos),
{
}

/// No se libera más de lo que el plan saca, y si todo sale bien se libera todo.
pub proof fn ley_lo_liberado_es_lo_planificado(entradas: Seq<EntradaVista>, exitos: Seq<bool>)
    requires
        exitos.len() <= entradas.len(),
    ensures
        sweep::bytes_de(sweep::logradas(entradas, exitos)) <= sweep::bytes_de(entradas),
        exitos.len() == entradas.len() && !exitos.contains(false) ==> sweep::logradas(
            entradas,
            exitos,
        ) == entradas,
    decreases exitos.len(),
{
    let n = exitos.len();
    let resto = entradas.skip(n as int);
    assert(entradas =~= entradas.take(n as int) + resto);
    sweep::lemma_bytes_de_la_union(entradas.take(n as int), resto);
    lemma_logradas_acotadas(entradas, exitos);
    if n == entradas.len() && !exitos.contains(false) {
        lemma_todo_sale_bien(entradas, exitos);
        assert(entradas.take(n as int) =~= entradas);
    }
}

/// De las primeras entradas no se libera más de lo que suman.
proof fn lemma_logradas_acotadas(entradas: Seq<EntradaVista>, exitos: Seq<bool>)
    requires
        exitos.len() <= entradas.len(),
    ensures
        sweep::bytes_de(sweep::logradas(entradas, exitos)) <= sweep::bytes_de(
            entradas.take(exitos.len() as int),
        ),
    decreases exitos.len(),
{
    let n = exitos.len();
    if n > 0 {
        lemma_logradas_acotadas(entradas, exitos.drop_last());
        assert(entradas.take(n as int).drop_last() =~= entradas.take(n - 1));
        let antes = sweep::logradas(entradas, exitos.drop_last());
        assert(antes.push(entradas[n - 1]).drop_last() =~= antes);
    }
}

/// Si todo sale bien, se logran todas.
proof fn lemma_todo_sale_bien(entradas: Seq<EntradaVista>, exitos: Seq<bool>)
    requires
        exitos.len() <= entradas.len(),
        !exitos.contains(false),
    ensures
        sweep::logradas(entradas, exitos) == entradas.take(exitos.len() as int),
    decreases exitos.len(),
{
    let n = exitos.len();
    if n == 0 {
        assert(entradas.take(0) =~= Seq::<EntradaVista>::empty());
    } else {
        let antes = exitos.drop_last();
        assert(exitos[n - 1]);
        assert forall|i: int| 0 <= i < antes.len() implies antes[i] by {
            assert(exitos[i] == antes[i]);
        }
        lemma_todo_sale_bien(entradas, antes);
        assert(entradas.take(n as int) =~= entradas.take(n - 1).push(entradas[n - 1]));
    }
}

/// Un directorio se llama como una unidad muerta justo cuando su nombre es un paquete,
/// un guion y un hash que no está vivo, tenga el paquete los caracteres que tenga.
pub proof fn ley_que_nombres_estan_muertos(
    paquete: Seq<char>,
    hash: Seq<char>,
    nombre: Seq<u8>,
    vivos: Set<Seq<char>>,
)
    ensures
        fingerprint::es_hash(hash) && nombre == encode_utf8(paquete.push('-') + hash) ==> (
        sweep::es_nombre_muerto(nombre, vivos) <==> !vivos.contains(hash)),
        sweep::es_nombre_muerto(nombre, vivos) ==> exists|p: Seq<char>, h: Seq<char>|
            fingerprint::es_hash(h) && !vivos.contains(h) && nombre == encode_utf8(
                #[trigger] (p.push('-') + h),
            ),
{
    let texto = paquete.push('-') + hash;
    texto::ley_los_nombres_son_utf8(nombre, texto);
    if fingerprint::es_hash(hash) {
        fingerprint::ley_paquete_guion_hash(paquete, hash, texto);
    }
    if sweep::es_nombre_muerto(nombre, vivos) {
        let t = texto::texto_de_bytes(nombre)->0;
        let (p, h) = fingerprint::paquete_y_hash(t)->0;
        texto::ley_los_nombres_son_utf8(nombre, t);
        fingerprint::ley_paquete_guion_hash(p, h, t);
        assert(nombre == encode_utf8(p.push('-') + h));
    }
}

/// Un artefacto de `deps/` con un hash que no está vivo sale siempre, con sus bytes y
/// se llame como se llame su crate y su extensión; con un hash vivo, nunca como muerto.
pub proof fn ley_sale_todo_artefacto_muerto(
    dir: Seq<Seq<u8>>,
    foto: FotoDePerfil,
    vivos: Set<Seq<char>>,
    incremental: bool,
    codegen: bool,
    i: int,
    base: Seq<char>,
    hash: Seq<char>,
    extension: Seq<char>,
)
    requires
        0 <= i < foto.deps@.len(),
        foto.deps@[i].es_archivo,
        !base.contains('.'),
        fingerprint::es_hash(hash),
        foto.deps@[i].nombre@ == encode_utf8(base.push('-') + hash) || foto.deps@[i].nombre@
            == encode_utf8((base.push('-') + hash).push('.') + extension),
    ensures
        ({
            let plan = sweep::plan_de(dir, foto, vivos, incremental, codegen);
            let path = dir.push(encode_utf8("deps"@)).push(foto.deps@[i].nombre@);
            &&& !vivos.contains(hash) ==> plan.deps.contains(
                EntradaVista { path, bytes: foto.deps@[i].bytes },
            )
            &&& vivos.contains(hash) ==> !saca(plan.deps, path)
        }),
{
    let a = foto.deps@[i];
    let plan = sweep::plan_de(dir, foto, vivos, incremental, codegen);
    let deps = dir.push(encode_utf8("deps"@));
    let path = deps.push(a.nombre@);
    let corto = base.push('-') + hash;
    let largo = (base.push('-') + hash).push('.') + extension;
    artefacto::ley_el_hash_va_tras_el_guion(base, hash, extension, corto);
    artefacto::ley_vivo_o_muerto_segun_su_hash(a, corto, vivos);
    artefacto::ley_vivo_o_muerto_segun_su_hash(a, largo, vivos);
    let e = EntradaVista { path, bytes: a.bytes };
    ley_sale_exactamente_lo_muerto(dir, foto, vivos, incremental, codegen, e);
    if !vivos.contains(hash) {
        assert(artefacto::esta_muerto(foto.deps@[i], vivos));
        assert(e == sweep::entrada_de_archivo(deps, foto.deps@[i]));
    } else if saca(plan.deps, path) {
        let k = choose|k: int| 0 <= k < plan.deps.len() && (#[trigger] plan.deps[k]).path == path;
        ley_sale_exactamente_lo_muerto(dir, foto, vivos, incremental, codegen, plan.deps[k]);
        assert(plan.deps.contains(plan.deps[k]));
        let j = choose|j: int|
            0 <= j < foto.deps@.len() && artefacto::esta_muerto(#[trigger] foto.deps@[j], vivos)
                && plan.deps[k] == sweep::entrada_de_archivo(deps, foto.deps@[j]);
        assert(path.last() == deps.push(foto.deps@[j].nombre@).last());
        artefacto::ley_vivo_o_muerto_segun_su_hash(foto.deps@[j], corto, vivos);
        artefacto::ley_vivo_o_muerto_segun_su_hash(foto.deps@[j], largo, vivos);
    }
}

/// El directorio de una unidad con un hash que no está vivo sale siempre, de
/// `.fingerprint/` y de `build/`, con todo lo que ocupa y se llame como se llame su
/// paquete.
pub proof fn ley_sale_todo_directorio_muerto(
    dir: Seq<Seq<u8>>,
    foto: FotoDePerfil,
    vivos: Set<Seq<char>>,
    incremental: bool,
    codegen: bool,
    i: int,
    paquete: Seq<char>,
    hash: Seq<char>,
)
    requires
        fingerprint::es_hash(hash),
        !vivos.contains(hash),
    ensures
        ({
            let plan = sweep::plan_de(dir, foto, vivos, incremental, codegen);
            let nombre = encode_utf8(paquete.push('-') + hash);
            &&& 0 <= i < foto.fingerprints@.len() && foto.fingerprints@[i].es_dir
                && foto.fingerprints@[i].nombre@ == nombre && sweep::peso_total(
                foto.fingerprints@[i].contenido@,
            ) <= u64::MAX ==> exists|k: int|
                0 <= k < plan.fingerprints.len() && (#[trigger] plan.fingerprints[k]).path
                    == dir.push(encode_utf8(".fingerprint"@)).push(nombre)
                    && plan.fingerprints[k].bytes == sweep::peso_total(
                    foto.fingerprints@[i].contenido@,
                )
            &&& 0 <= i < foto.builds@.len() && foto.builds@[i].es_dir && foto.builds@[i].nombre@
                == nombre && sweep::peso_total(foto.builds@[i].contenido@) <= u64::MAX
                ==> exists|k: int|
                0 <= k < plan.builds.len() && (#[trigger] plan.builds[k]).path == dir.push(
                    encode_utf8("build"@),
                ).push(nombre) && plan.builds[k].bytes == sweep::peso_total(
                    foto.builds@[i].contenido@,
                )
        }),
{
    let plan = sweep::plan_de(dir, foto, vivos, incremental, codegen);
    let nombre = encode_utf8(paquete.push('-') + hash);
    ley_que_nombres_estan_muertos(paquete, hash, nombre, vivos);
    if 0 <= i < foto.fingerprints@.len() && foto.fingerprints@[i].es_dir
        && foto.fingerprints@[i].nombre@ == nombre {
        let e = sweep::entrada_de_carpeta(
            dir.push(encode_utf8(".fingerprint"@)),
            foto.fingerprints@[i],
        );
        assert(sweep::carpeta_muerta(foto.fingerprints@[i], vivos));
        ley_sale_exactamente_lo_muerto(dir, foto, vivos, incremental, codegen, e);
        assert(plan.fingerprints.contains(e));
        let k = choose|k: int| 0 <= k < plan.fingerprints.len() && plan.fingerprints[k] == e;
        assert(plan.fingerprints[k].path == e.path);
    }
    if 0 <= i < foto.builds@.len() && foto.builds@[i].es_dir && foto.builds@[i].nombre@ == nombre {
        let e = sweep::entrada_de_carpeta(dir.push(encode_utf8("build"@)), foto.builds@[i]);
        assert(sweep::carpeta_muerta(foto.builds@[i], vivos));
        ley_sale_exactamente_lo_muerto(dir, foto, vivos, incremental, codegen, e);
        assert(plan.builds.contains(e));
        let k = choose|k: int| 0 <= k < plan.builds.len() && plan.builds[k] == e;
        assert(plan.builds[k].path == e.path);
    }
}

/// El plan va de uno en uno: agregar un archivo a `deps/` agrega al plan, al final de su
/// zona, ese archivo y nada más; como muerto si lo está, y como intermedio si termina
/// en `.rcgu.o`, no está muerto y se pidió barrerlos.
pub proof fn ley_el_plan_crece_con_cada_archivo(
    dir: Seq<Seq<u8>>,
    antes: FotoDePerfil,
    despues: FotoDePerfil,
    a: Archivo,
    nombre: Seq<char>,
    vivos: Set<Seq<char>>,
    incremental: bool,
    codegen: bool,
)
    requires
        despues.deps@ == antes.deps@.push(a),
        despues.fingerprints == antes.fingerprints,
        despues.builds == antes.builds,
        despues.incremental == antes.incremental,
    ensures
        ({
            let p = sweep::plan_de(dir, antes, vivos, incremental, codegen);
            let q = sweep::plan_de(dir, despues, vivos, incremental, codegen);
            let e = EntradaVista {
                path: dir.push(encode_utf8("deps"@)).push(a.nombre@),
                bytes: a.bytes,
            };
            &&& antes.deps@.len() == 0 ==> p.deps.len() == 0 && p.codegen.len() == 0
            &&& artefacto::esta_muerto(a, vivos) ==> q.deps == p.deps.push(e) && q.codegen
                == p.codegen
            &&& !artefacto::esta_muerto(a, vivos) ==> q.deps == p.deps
            &&& !artefacto::esta_muerto(a, vivos) && codegen && a.es_archivo && a.nombre@
                == encode_utf8(nombre) && texto::termina_en(nombre, ".rcgu.o"@) ==> q.codegen
                == p.codegen.push(e)
            &&& a.nombre@ == encode_utf8(nombre) && !texto::termina_en(nombre, ".rcgu.o"@)
                ==> q.codegen == p.codegen
            &&& !a.es_archivo || !valid_utf8(a.nombre@) ==> q.codegen == p.codegen
            &&& !codegen ==> q.codegen.len() == 0
            &&& q.fingerprints == p.fingerprints
            &&& q.builds == p.builds
            &&& q.incremental == p.incremental
        }),
{
    reveal(Seq::filter);
    let deps = dir.push(encode_utf8("deps"@));
    let e = sweep::entrada_de_archivo(deps, a);
    texto::ley_los_nombres_son_utf8(a.nombre@, nombre);
    assert(despues.deps@.drop_last() =~= antes.deps@);
    let muertos = artefacto::los_muertos(antes.deps@, vivos);
    let vivas = sweep::los_codegen_vivos(antes.deps@, vivos);
    assert(sweep::entradas_de_archivos(deps, muertos.push(a)) =~= sweep::entradas_de_archivos(
        deps,
        muertos,
    ).push(e));
    assert(sweep::entradas_de_archivos(deps, vivas.push(a)) =~= sweep::entradas_de_archivos(
        deps,
        vivas,
    ).push(e));
}

/// Agregar un directorio a `.fingerprint/` o a `build/` agrega al plan, al final de su
/// zona, ese directorio si está muerto, y nada más.
pub proof fn ley_el_plan_crece_con_cada_directorio(
    dir: Seq<Seq<u8>>,
    antes: FotoDePerfil,
    despues: FotoDePerfil,
    c: Carpeta,
    vivos: Set<Seq<char>>,
    incremental: bool,
    codegen: bool,
)
    requires
        despues.deps == antes.deps,
        despues.incremental == antes.incremental,
        sweep::peso_total(c.contenido@) <= u64::MAX,
    ensures
        ({
            let p = sweep::plan_de(dir, antes, vivos, incremental, codegen);
            let q = sweep::plan_de(dir, despues, vivos, incremental, codegen);
            let muerta = c.es_dir && sweep::es_nombre_muerto(c.nombre@, vivos);
            let bytes = sweep::peso_total(c.contenido@) as u64;
            let huella = EntradaVista {
                path: dir.push(encode_utf8(".fingerprint"@)).push(c.nombre@),
                bytes,
            };
            let build = EntradaVista {
                path: dir.push(encode_utf8("build"@)).push(c.nombre@),
                bytes,
            };
            &&& antes.fingerprints@.len() == 0 ==> p.fingerprints.len() == 0
            &&& antes.builds@.len() == 0 ==> p.builds.len() == 0
            &&& despues.fingerprints@ == antes.fingerprints@.push(c) && muerta ==> q.fingerprints
                == p.fingerprints.push(huella)
            &&& despues.fingerprints@ == antes.fingerprints@.push(c) && !muerta ==> q.fingerprints
                == p.fingerprints
            &&& despues.builds@ == antes.builds@.push(c) && muerta ==> q.builds == p.builds.push(
                build,
            )
            &&& despues.builds@ == antes.builds@.push(c) && !muerta ==> q.builds == p.builds
            &&& despues.fingerprints == antes.fingerprints ==> q.fingerprints == p.fingerprints
            &&& despues.builds == antes.builds ==> q.builds == p.builds
            &&& q.deps == p.deps
            &&& q.codegen == p.codegen
            &&& q.incremental == p.incremental
        }),
{
    reveal(Seq::filter);
    let f = dir.push(encode_utf8(".fingerprint"@));
    let b = dir.push(encode_utf8("build"@));
    if despues.fingerprints@ == antes.fingerprints@.push(c) {
        let previas = sweep::las_carpetas_muertas(antes.fingerprints@, vivos);
        assert(despues.fingerprints@.drop_last() =~= antes.fingerprints@);
        assert(sweep::entradas_de_carpetas(f, previas.push(c)) =~= sweep::entradas_de_carpetas(
            f,
            previas,
        ).push(sweep::entrada_de_carpeta(f, c)));
    }
    if despues.builds@ == antes.builds@.push(c) {
        let previas = sweep::las_carpetas_muertas(antes.builds@, vivos);
        assert(despues.builds@.drop_last() =~= antes.builds@);
        assert(sweep::entradas_de_carpetas(b, previas.push(c)) =~= sweep::entradas_de_carpetas(
            b,
            previas,
        ).push(sweep::entrada_de_carpeta(b, c)));
    }
}

/// `incremental/` sale entero si se pide y ocupa algo, y si no, no sale.
pub proof fn ley_incremental_sale_si_se_pide(
    dir: Seq<Seq<u8>>,
    foto: FotoDePerfil,
    vivos: Set<Seq<char>>,
    codegen: bool,
)
    requires
        foto.incremental is Some ==> sweep::peso_total(foto.incremental->0@) <= u64::MAX,
    ensures
        sweep::plan_de(dir, foto, vivos, false, codegen).incremental.len() == 0,
        ({
            let plan = sweep::plan_de(dir, foto, vivos, true, codegen);
            &&& foto.incremental is Some && sweep::peso_total(foto.incremental->0@) > 0 ==> {
                &&& plan.incremental.len() == 1
                &&& plan.incremental[0].path == dir.push(encode_utf8("incremental"@))
                &&& plan.incremental[0].bytes == sweep::peso_total(foto.incremental->0@)
            }
            &&& !(foto.incremental is Some && sweep::peso_total(foto.incremental->0@) > 0)
                ==> plan.incremental.len() == 0
        }),
{
}

/// El plan entero son sus zonas, una tras otra y sin perder nada.
pub proof fn ley_el_plan_son_sus_zonas(plan: PlanVista)
    ensures
        plan.entradas() == plan.deps + plan.fingerprints + plan.builds + plan.incremental
            + plan.codegen,
        sweep::bytes_de(plan.entradas()) == sweep::bytes_de(plan.deps) + sweep::bytes_de(
            plan.fingerprints,
        ) + sweep::bytes_de(plan.builds) + sweep::bytes_de(plan.incremental) + sweep::bytes_de(
            plan.codegen,
        ),
{
    let ab = plan.deps + plan.fingerprints;
    let abc = ab + plan.builds;
    let abcd = abc + plan.incremental;
    sweep::lemma_bytes_de_la_union(plan.deps, plan.fingerprints);
    sweep::lemma_bytes_de_la_union(ab, plan.builds);
    sweep::lemma_bytes_de_la_union(abc, plan.incremental);
    sweep::lemma_bytes_de_la_union(abcd, plan.codegen);
}

/// Los bytes de unas entradas son los de cada una, sumados.
pub proof fn ley_los_bytes_se_suman(entradas: Seq<EntradaVista>, e: EntradaVista)
    ensures
        sweep::bytes_de(Seq::empty()) == 0,
        sweep::bytes_de(entradas.push(e)) == sweep::bytes_de(entradas) + e.bytes,
{
    assert(entradas.push(e).drop_last() =~= entradas);
}

/// Lo que pesa un directorio es lo que pesan sus archivos y sus subdirectorios; los
/// enlaces y lo demás no pesan.
pub proof fn ley_el_peso_es_el_de_los_archivos(
    hijos: Seq<Arbol>,
    bytes: u64,
    carpeta: Vec<Arbol>,
)
    ensures
        sweep::peso_total(Seq::empty()) == 0,
        sweep::peso_total(hijos.push(Arbol::Archivo(bytes))) == sweep::peso_total(hijos) + bytes,
        sweep::peso_total(hijos.push(Arbol::Carpeta(carpeta))) == sweep::peso_total(hijos)
            + sweep::peso_total(carpeta@),
        sweep::peso_total(hijos.push(Arbol::Otro)) == sweep::peso_total(hijos),
{
    assert(hijos.push(Arbol::Archivo(bytes)).drop_last() =~= hijos);
    assert(hijos.push(Arbol::Carpeta(carpeta)).drop_last() =~= hijos);
    assert(hijos.push(Arbol::Otro).drop_last() =~= hijos);
    assert(sweep::peso(Arbol::Archivo(bytes)) == bytes);
    assert(sweep::peso(Arbol::Carpeta(carpeta)) == sweep::peso_total(carpeta@));
    assert(sweep::peso(Arbol::Otro) == 0);
}

/// Hay una tarea por entrada del plan, en su orden. Sin papelera se borra la propia
/// entrada; con papelera se mueve a `.reap-trash/<segundos>/`, con la misma ruta que
/// tenía bajo `target/`.
pub proof fn ley_que_se_hace_con_cada_entrada(
    plan: PlanVista,
    target_root: Seq<Seq<u8>>,
    ts: u64,
    k: int,
    resto: Seq<Seq<u8>>,
)
    ensures
        ({
            let borrado = sweep::tareas_de(plan, target_root, Mode::Delete, ts);
            &&& borrado.len() == plan.entradas().len()
            &&& 0 <= k < borrado.len() ==> borrado[k] == TareaVista::Borrar(
                plan.entradas()[k].path,
            )
        }),
        ({
            let mudado = sweep::tareas_de(plan, target_root, Mode::Trash, ts);
            let path = plan.entradas()[k].path;
            &&& mudado.len() == plan.entradas().len()
            &&& 0 <= k < mudado.len() && path == target_root + resto ==> mudado[k] == (
            TareaVista::Mover {
                origen: path,
                destino: target_root.push(encode_utf8(".reap-trash"@)).push(
                    encode_utf8(texto::decimal(ts as nat)),
                ) + resto,
            })
            &&& 0 <= k < mudado.len() && !ruta::cuelga_de(path, target_root) ==> mudado[k]
                == TareaVista::Fuera
        }),
        sweep::tareas_de(plan, target_root, Mode::DryRun, ts).len() == 0,
{
    let path = plan.entradas()[k].path;
    if path == target_root + resto {
        ruta::ley_colgar_es_continuar(target_root, resto);
        assert(path.skip(target_root.len() as int) =~= resto);
    }
}

/// Los lotes van a `.reap-trash/`, cada uno con los segundos en que se hizo.
pub proof fn ley_donde_estan_los_lotes(target_root: Seq<Seq<u8>>, ts: u64)
    ensures
        sweep::papelera_de(target_root) == target_root.push(encode_utf8(".reap-trash"@)),
        sweep::lote_de(target_root, ts) == target_root.push(encode_utf8(".reap-trash"@)).push(
            encode_utf8(texto::decimal(ts as nat)),
        ),
{
}

/// La cuenta va de una en una: cada tarea que sale bien suma la entrada que le toca, y
/// la que sale mal no suma nada.
pub proof fn ley_solo_suma_lo_que_sale_bien(entradas: Seq<EntradaVista>, exitos: Seq<bool>)
    ensures
        sweep::logradas(entradas, Seq::empty()) == Seq::<EntradaVista>::empty(),
        exitos.len() < entradas.len() ==> sweep::logradas(entradas, exitos.push(true))
            == sweep::logradas(entradas, exitos).push(entradas[exitos.len() as int]),
        sweep::logradas(entradas, exitos.push(false)) == sweep::logradas(entradas, exitos),
{
    assert(exitos.push(true).drop_last() =~= exitos);
    assert(exitos.push(false).drop_last() =~= exitos);
}

/// Qué lotes están vencidos: los que se llaman con un número de segundos tal que desde
/// entonces ha pasado más que la retención. Los demás nombres no se purgan nunca.
pub proof fn ley_que_lotes_vencen(nombre: Seq<u8>, escrito: Seq<char>, ahora: u64, retener: u64)
    ensures
        nombre == encode_utf8(escrito) ==> (sweep::esta_vencido(nombre, ahora, retener) <==> {
            &&& texto::natural(escrito) is Some
            &&& texto::natural(escrito)->0 <= u64::MAX
            &&& texto::natural(escrito)->0 + retener < ahora
        }),
        !valid_utf8(nombre) ==> !sweep::esta_vencido(nombre, ahora, retener),
{
    texto::ley_los_nombres_son_utf8(nombre, escrito);
}

/// La purga va de uno en uno: cada lote vencido se borra entero y por orden, y los
/// demás no se tocan.
pub proof fn ley_la_purga_borra_los_vencidos(
    target_root: Seq<Seq<u8>>,
    lotes: Seq<Lote>,
    l: Lote,
    ahora: u64,
    retener: u64,
)
    requires
        sweep::peso_total(l.contenido@) <= u64::MAX,
    ensures
        ({
            let antes = sweep::entradas_de_lotes(
                target_root,
                sweep::lotes_vencidos(lotes, ahora, retener),
            );
            let despues = sweep::entradas_de_lotes(
                target_root,
                sweep::lotes_vencidos(lotes.push(l), ahora, retener),
            );
            &&& lotes.len() == 0 ==> antes.len() == 0
            &&& sweep::esta_vencido(l.nombre@, ahora, retener) ==> despues == antes.push(
                EntradaVista {
                    path: target_root.push(encode_utf8(".reap-trash"@)).push(l.nombre@),
                    bytes: sweep::peso_total(l.contenido@) as u64,
                },
            )
            &&& !sweep::esta_vencido(l.nombre@, ahora, retener) ==> despues == antes
        }),
{
    reveal(Seq::filter);
    assert(lotes.push(l).drop_last() =~= lotes);
    let previos = sweep::lotes_vencidos(lotes, ahora, retener);
    assert(sweep::entradas_de_lotes(target_root, previos.push(l)) =~= sweep::entradas_de_lotes(
        target_root,
        previos,
    ).push(sweep::entrada_de_lote(target_root, l)));
}

} // verus!
