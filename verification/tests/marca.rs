//! Fase mark: raíces, alcanzabilidad y clasificación de `deps/`.

use cargo_reap::artefacto::{
    analyze, clasificar_deps, clasificar_deps_con_rutas, hash_de_artefacto, Archivo,
};
use cargo_reap::conjunto::{Conjunto, Miembros};
use cargo_reap::fecha::Instante;
use cargo_reap::fingerprint::{Profile, Unit};
use cargo_reap::mark::{conjunto_vivo, normalizar, raices, stem_vigente};
use cargo_reap::ruta::Ruta;

fn ruta(texto: &str) -> Ruta {
    Ruta {
        partes: texto.split('/').map(|p| p.as_bytes().to_vec()).collect(),
    }
}

fn conjunto(textos: &[&str]) -> Conjunto {
    let mut c = Conjunto::new();
    for t in textos {
        c.insert(t.to_string());
    }
    c
}

fn miembros(paquetes: &[(&str, &[&str])]) -> Miembros {
    let mut m = Miembros::new();
    for (nombre, targets) in paquetes {
        m.insert(nombre.to_string(), conjunto(targets));
    }
    m
}

#[test]
fn extrae_hash_de_artefacto() {
    assert_eq!(
        hash_de_artefacto("libsqlparser-3aed8a7b2a1da43b.rlib").as_deref(),
        Some("3aed8a7b2a1da43b")
    );
    assert_eq!(
        hash_de_artefacto("app_server-32096233fdac0ecc").as_deref(),
        Some("32096233fdac0ecc")
    );
    assert_eq!(
        hash_de_artefacto("libaws_sdk_glue-e7411d878efa0c18.rmeta").as_deref(),
        Some("e7411d878efa0c18")
    );
    // Codegen units: el hash está antes del primer punto.
    assert_eq!(
        hash_de_artefacto("adler2-33c837f7cd28a9af.adler2.33fb6cfeba3d934d-cgu.0.rcgu.o")
            .as_deref(),
        Some("33c837f7cd28a9af")
    );
    // Sin sufijo de hash no se toca.
    assert_eq!(hash_de_artefacto("build"), None);
}

#[test]
fn artefactos_sin_hash() {
    assert_eq!(hash_de_artefacto(""), None);
    assert_eq!(hash_de_artefacto(".fingerprint"), None);
    assert_eq!(hash_de_artefacto("a-b.rlib"), None);
    assert_eq!(hash_de_artefacto("a.b-3aed8a7b2a1da43b"), None);
    assert_eq!(hash_de_artefacto("app.1a2b3c4d.0.rcgu.o"), None);
}

#[test]
fn normaliza_los_guiones() {
    assert_eq!(normalizar("bin-cargo-reap"), "bin_cargo_reap");
    assert_eq!(normalizar("a_b"), "a_b");
    assert_eq!(normalizar(""), "");
}

#[test]
fn solo_los_targets_vigentes_son_raices() {
    let targets = conjunto(&["cargo_reap"]);
    // El binario declarado, en sus dos grafías.
    assert!(stem_vigente("bin-cargo-reap", &targets));
    assert!(stem_vigente("bin-cargo_reap", &targets));
    assert!(stem_vigente("test-bin-cargo-reap", &targets));
    // Un binario renombrado deja atrás una unidad que ya no corresponde a
    // ningún target: no debe volverse raíz de sí misma.
    assert!(!stem_vigente("bin-nombre-viejo", &targets));

    // Los build scripts se declaran como target propio.
    let bs = conjunto(&["build_script_build"]);
    assert!(stem_vigente("build-script-build", &bs));
    assert!(stem_vigente("run-build-script-build-script-build", &bs));
}

#[test]
fn las_dos_grafias_dan_lo_mismo() {
    let targets = conjunto(&["cargo_reap", "otro"]);
    for stem in ["bin-cargo-reap", "lib-otro", "xotro", "otro", "bin-nada", ""] {
        assert_eq!(
            stem_vigente(stem, &targets),
            stem_vigente(&normalizar(stem), &targets)
        );
    }
    // El target tiene que venir tras un guion, no pegado.
    assert!(!stem_vigente("xotro", &targets));
    assert!(!stem_vigente("bin-otro", &conjunto(&[])));
}

/// Construye un perfil mínimo con las unidades dadas.
fn perfil(label: &str, units: Vec<Unit>) -> Profile {
    Profile {
        label: label.to_string(),
        dir: ruta(label),
        fingerprint_dir: ruta(label).join(".fingerprint"),
        deps_dir: ruta(label).join("deps"),
        units,
    }
}

/// Construye una unidad mínima para los tests de selección de raíces.
fn unidad(pkg: &str, stem: &str, hash: &str, segundos: i64) -> Unit {
    Unit {
        pkg: pkg.to_string(),
        stem: stem.to_string(),
        filename_hash: hash.to_string(),
        fp_hash: None,
        deps: Vec::new(),
        invoked: Some(Instante { segundos, nanos: 0 }),
    }
}

/// Regresión: dos configuraciones del mismo paquete del workspace coexisten
/// (p. ej. `cargo build` y `cargo build --features x`). La más reciente es la
/// del build con features, pero la que se va a construir después es la otra.
/// Podar por fecha la barría y forzaba a recompilar el árbol entero.
#[test]
fn conserva_todas_las_configuraciones_del_workspace() {
    let units = vec![
        unidad("app", "lib-app", "aaaaaaaaaaaaaaaa", 100), // config sin features
        unidad("app", "lib-app", "bbbbbbbbbbbbbbbb", 200), // config con features, más nueva
    ];
    let members = miembros(&[("app", &["app"])]);

    // Por defecto no se poda: ambas configuraciones anclan el conjunto vivo.
    let roots = raices(&units, &members, usize::MAX);
    assert_eq!(roots.len(), 2, "el default debe conservar ambas variantes");

    // Con --keep-configs 1 el usuario pide explícitamente podar, y se queda
    // sólo la más reciente — que no tiene por qué ser la que va a construir.
    let roots = raices(&units, &members, 1);
    assert_eq!(roots.len(), 1);
    assert_eq!(units[roots[0]].filename_hash, "bbbbbbbbbbbbbbbb");
}

#[test]
fn poda_por_recencia_dentro_de_cada_grupo() {
    let mut sin_fecha = unidad("app", "lib-app", "c", 0);
    sin_fecha.invoked = None;
    let units = vec![
        sin_fecha,
        unidad("app", "lib-app", "a", 100),
        unidad("app", "bin-app", "b", 1),
        unidad("app", "lib-app", "d", 100),
        unidad("app", "lib-app", "e", 300),
    ];
    let members = miembros(&[("app", &["app"])]);
    // De dos igual de recientes va delante la que se leyó antes, y sin fecha al final.
    assert_eq!(raices(&units, &members, 1), vec![2, 4]);
    assert_eq!(raices(&units, &members, 2), vec![1, 2, 4]);
    assert_eq!(raices(&units, &members, 3), vec![1, 2, 3, 4]);
    assert_eq!(raices(&units, &members, 4), vec![0, 1, 2, 3, 4]);
}

#[test]
fn los_nanosegundos_desempatan() {
    let mut a = unidad("app", "lib-app", "a", 100);
    a.invoked = Some(Instante {
        segundos: 100,
        nanos: 7,
    });
    let units = vec![unidad("app", "lib-app", "b", 100), a];
    let members = miembros(&[("app", &["app"])]);
    assert_eq!(raices(&units, &members, 1), vec![1]);
}

/// Regresión: al cruzar-compilar, una unidad del target depende de un
/// proc-macro que vive en el perfil del host. Si el grafo se calcula perfil
/// por perfil, esa arista no resuelve y el proc-macro parece muerto.
#[test]
fn el_grafo_cruza_de_perfil() {
    let mut host = unidad("macro_derive", "lib-macro_derive", "1111111111111111", 10);
    host.fp_hash = Some(0xABCD);

    let mut target_unit = unidad("app", "lib-app", "2222222222222222", 20);
    target_unit.deps = vec![("macro_derive".to_string(), 0xABCD)];

    let perfiles = vec![
        perfil("x86_64-unknown-linux-musl/release", vec![target_unit]),
        perfil("release", vec![host]),
    ];
    let members = miembros(&[("app", &["app"])]);

    let vivos = conjunto_vivo(&perfiles, &members, usize::MAX);
    assert_eq!(vivos.edges_resolved, 1, "la arista debe cruzar de perfil");
    assert!(
        vivos.hashes.contains("1111111111111111"),
        "el proc-macro del host tiene que quedar vivo"
    );
}

/// Una unidad cuyo paquete ya no está en el workspace no ancla nada, por más
/// reciente que sea.
#[test]
fn un_paquete_ajeno_no_es_raiz() {
    let units = vec![unidad("ajeno", "lib-ajeno", "cccccccccccccccc", 999)];
    let members = Miembros::new();
    assert!(raices(&units, &members, usize::MAX).is_empty());
}

/// app -> a -> b -> a (un ciclo), y una suelta que nadie usa.
fn grafo() -> Vec<Profile> {
    let mut app = unidad("app", "bin-app", "aaaa", 30);
    app.deps = vec![("a".to_string(), 1), ("perdida".to_string(), 99)];
    let mut a = unidad("a", "lib-a", "bbbb", 10);
    a.fp_hash = Some(1);
    a.deps = vec![("b".to_string(), 2)];
    let mut b = unidad("b", "lib-b", "cccc", 20);
    b.fp_hash = Some(2);
    b.deps = vec![("a".to_string(), 1)];
    let mut suelta = unidad("s", "lib-s", "dddd", 40);
    suelta.fp_hash = Some(3);
    vec![
        perfil("debug", vec![app, suelta]),
        perfil("release", vec![a, b]),
    ]
}

#[test]
fn el_conjunto_vivo_es_lo_alcanzable() {
    let vivos = conjunto_vivo(&grafo(), &miembros(&[("app", &["app"])]), usize::MAX);
    assert_eq!(vivos.roots, 1);
    assert_eq!(vivos.reachable, 3);
    assert_eq!(vivos.edges_total, 4);
    assert_eq!(vivos.edges_resolved, 3);
    assert_eq!(
        vivos.anchor,
        Some(Instante {
            segundos: 40,
            nanos: 0
        })
    );
    assert!(vivos.hashes.contains("aaaa"));
    assert!(vivos.hashes.contains("bbbb"));
    assert!(vivos.hashes.contains("cccc"));
    assert!(!vivos.hashes.contains("dddd"));
    assert_eq!(vivos.hashes.len(), 3);
}

#[test]
fn sin_perfiles_no_hay_nada_vivo() {
    let vivos = conjunto_vivo(&vec![], &miembros(&[("app", &["app"])]), 1);
    assert_eq!(vivos.roots, 0);
    assert_eq!(vivos.reachable, 0);
    assert_eq!(vivos.hashes.len(), 0);
    assert_eq!(vivos.anchor, None);
}

fn archivo(nombre: &str, bytes: u64) -> Archivo {
    Archivo {
        nombre: nombre.as_bytes().to_vec(),
        es_archivo: true,
        bytes,
    }
}

fn deps() -> Vec<Archivo> {
    let mut no_archivo = archivo("dir-0123456789abcdef", 1000);
    no_archivo.es_archivo = false;
    let mut no_texto = archivo("", 2000);
    no_texto.nombre = b"\xff-0123456789abcdef".to_vec();
    vec![
        archivo("libviva-aaaaaaaaaaaaaaaa.rlib", 1),
        archivo("libmuerta-bbbbbbbbbbbbbbbb.rlib", 2),
        archivo("suelto", 4),
        archivo("viva-aaaaaaaaaaaaaaaa.d", 8),
        archivo("muerta-bbbbbbbbbbbbbbbb", 16),
        no_archivo,
        no_texto,
    ]
}

#[test]
fn clasifica_deps() {
    let vivos = conjunto(&["aaaaaaaaaaaaaaaa"]);
    let c = clasificar_deps_con_rutas(&ruta("t/debug/deps"), &deps(), &vivos, true);
    assert_eq!((c.live_bytes, c.live_files), (9, 2));
    assert_eq!((c.dead_bytes, c.dead_files), (18, 2));
    assert_eq!(c.huerfanos, 1);
    assert_eq!(c.dead_paths.len(), 2);
    assert_eq!(
        c.dead_paths[0].partes,
        ruta("t/debug/deps/libmuerta-bbbbbbbbbbbbbbbb.rlib").partes
    );
    assert_eq!(
        c.dead_paths[1].partes,
        ruta("t/debug/deps/muerta-bbbbbbbbbbbbbbbb").partes
    );
    assert_eq!(
        clasificar_deps(&ruta("t/debug/deps"), &deps(), &vivos),
        (9, 18, 2, 2, 1)
    );
    let sin_rutas = clasificar_deps_con_rutas(&ruta("t/debug/deps"), &deps(), &vivos, false);
    assert!(sin_rutas.dead_paths.is_empty());
}

#[test]
fn un_perfil_sin_raices_no_tiene_muertos() {
    let perfiles = vec![perfil(
        "debug",
        vec![unidad("app", "lib-app", "aaaaaaaaaaaaaaaa", 1)],
    )];
    let members = miembros(&[("app", &["app"])]);
    let vivos = conjunto_vivo(&perfiles, &members, usize::MAX);
    let r = analyze(&perfiles[0], &deps(), &vivos, &members, true);
    assert!(!r.sin_raices);
    assert_eq!(r.units, 1);
    assert_eq!((r.live_bytes, r.live_files), (9, 2));
    assert_eq!((r.dead_bytes, r.dead_files), (18, 2));
    assert_eq!(r.dead_paths.len(), 2);
    // El informe lleva los hashes que el barrido tiene que preservar.
    assert!(r.vivos.contains("aaaaaaaaaaaaaaaa"));
    assert_eq!(r.vivos.len(), 1);

    // El mismo perfil, con un workspace en el que ya no está el paquete.
    let otros = miembros(&[("otro", &["otro"])]);
    let r = analyze(&perfiles[0], &deps(), &vivos, &otros, true);
    assert!(r.sin_raices);
    assert_eq!((r.live_bytes, r.live_files), (9, 2));
    assert_eq!((r.dead_bytes, r.dead_files), (0, 0));
    assert_eq!(r.huerfanos, 1);
    assert!(r.dead_paths.is_empty());
}
