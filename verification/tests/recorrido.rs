//! Búsqueda de proyectos y de perfiles, y lectura de `cargo metadata`.

use cargo_reap::fingerprint::{discover_profiles, ArchivoDeUnidad, DirDeUnidad};
use cargo_reap::metadatos::{raiz_del_proyecto, reunir_miembros, workspace_members, Paquete};
use cargo_reap::perfiles::{collect_fingerprint_dirs, desciende, Hallazgo, Nodo};
use cargo_reap::proyectos::{
    entra, es_target, nombrar_proyecto, resolver_targets, Directorio, Partida,
};
use cargo_reap::ruta::Ruta;

fn ruta(texto: &str) -> Ruta {
    Ruta {
        partes: texto.split('/').map(|p| p.as_bytes().to_vec()).collect(),
    }
}

fn escrita(r: &Ruta) -> String {
    String::from_utf8(r.relativa()).unwrap()
}

fn nodo(nombre: &[u8], hijos: Vec<Nodo>) -> Nodo {
    Nodo {
        nombre: nombre.to_vec(),
        es_dir: true,
        hijos,
        unidades: Vec::new(),
    }
}

fn huellas() -> Nodo {
    let mut n = nodo(b".fingerprint", vec![]);
    n.unidades = vec![DirDeUnidad {
        nombre: b"app-0123456789abcdef".to_vec(),
        es_dir: true,
        invoked: None,
        archivos: vec![ArchivoDeUnidad {
            nombre: b"lib-app".to_vec(),
            tiene_json: true,
            huella: None,
            json: None,
        }],
    }];
    n
}

fn perfil(nombre: &[u8]) -> Nodo {
    nodo(nombre, vec![huellas(), nodo(b"deps", vec![])])
}

#[test]
fn descubre_los_perfiles() {
    let mut archivo = perfil(b"archivo");
    archivo.es_dir = false;
    let hijos = vec![
        perfil(b"release"),
        nodo(b"x86_64-unknown-linux-musl", vec![perfil(b"release")]),
        // Un `.fingerprint/` sin `deps/` al lado no es un perfil.
        nodo(b"sin-deps", vec![huellas()]),
        // La papelera y las zonas de otros perfiles no se miran.
        nodo(b".reap-trash", vec![nodo(b"1700000000", vec![perfil(b"debug")])]),
        nodo(b"build", vec![perfil(b"debug")]),
        archivo,
        perfil(b"debug"),
    ];
    let perfiles = discover_profiles(&ruta("p/target"), &hijos);
    let etiquetas: Vec<&str> = perfiles.iter().map(|p| p.label.as_str()).collect();
    assert_eq!(
        etiquetas,
        vec!["debug", "release", "x86_64-unknown-linux-musl/release"]
    );
    assert_eq!(escrita(&perfiles[0].dir), "p/target/debug");
    assert_eq!(
        escrita(&perfiles[2].deps_dir),
        "p/target/x86_64-unknown-linux-musl/release/deps"
    );
    assert_eq!(
        escrita(&perfiles[0].fingerprint_dir),
        "p/target/debug/.fingerprint"
    );
    assert_eq!(perfiles[0].units.len(), 1);
    assert_eq!(perfiles[0].units[0].pkg, "app");
}

#[test]
fn los_perfiles_se_buscan_hasta_tres_niveles() {
    let hondo = |n: usize| {
        let mut x = perfil(b"p");
        for _ in 1..n {
            x = nodo(b"d", vec![x]);
        }
        vec![x]
    };
    assert_eq!(discover_profiles(&ruta("t"), &hondo(3)).len(), 1);
    assert_eq!(discover_profiles(&ruta("t"), &hondo(4)).len(), 0);
    // El propio `target/` puede ser un perfil; su etiqueta queda vacía.
    let raiz = vec![huellas(), nodo(b"deps", vec![])];
    let perfiles = discover_profiles(&ruta("t"), &raiz);
    assert_eq!(perfiles.len(), 1);
    assert_eq!(perfiles[0].label, "");
}

#[test]
fn mas_alla_del_ultimo_nivel_no_se_busca() {
    let hijos = vec![perfil(b"p")];
    for (depth, cuantos) in [(0, 1), (2, 1), (3, 0), (4, 0), (usize::MAX, 0)] {
        let mut out: Vec<Hallazgo> = Vec::new();
        collect_fingerprint_dirs(&ruta("t"), &hijos, depth, &mut out);
        assert_eq!(out.len(), cuantos, "{depth}");
    }
    // En el último nivel todavía se ve un `.fingerprint/`.
    let hijos = vec![huellas(), nodo(b"deps", vec![])];
    let mut out: Vec<Hallazgo> = Vec::new();
    collect_fingerprint_dirs(&ruta("t"), &hijos, 3, &mut out);
    assert_eq!(out.len(), 1);
    assert!(out[0].con_deps);
}

#[test]
fn una_etiqueta_con_acentos_se_muestra_tal_cual() {
    let hijos = vec![nodo("ñandú".as_bytes(), vec![perfil("édition".as_bytes())])];
    let perfiles = discover_profiles(&ruta("t"), &hijos);
    assert_eq!(perfiles[0].label, "ñandú/édition");
}

#[test]
fn una_etiqueta_que_no_es_texto_se_reemplaza() {
    let perfiles = discover_profiles(&ruta("t"), &vec![perfil(b"a\xffb")]);
    assert_eq!(perfiles[0].label, "a\u{fffd}b");
}

#[test]
fn en_que_directorios_se_buscan_perfiles() {
    for no in [
        ".fingerprint",
        ".reap-trash",
        "deps",
        "build",
        "incremental",
        ".rustc_info.json",
    ] {
        assert!(!desciende(&no.as_bytes().to_vec()));
    }
    assert!(desciende(&b"debug".to_vec()));
    assert!(desciende(&vec![0xff]));
}

#[test]
fn reconoce_un_target() {
    // Con la marca de Cargo, se llame como se llame.
    assert!(es_target(&ruta("a/salida"), true, false));
    // Sin ella, si se llama `target` y está junto a un Cargo.toml.
    assert!(es_target(&ruta("a/target"), false, true));
    assert!(!es_target(&ruta("a/target"), false, false));
    assert!(!es_target(&ruta("a/salida"), false, true));
    assert!(!es_target(&Ruta { partes: vec![] }, false, true));
}

fn dir(nombre: &str, con_manifiesto: bool, hijos: Vec<Directorio>) -> Directorio {
    Directorio {
        nombre: nombre.as_bytes().to_vec(),
        es_dir: true,
        con_marca: false,
        con_manifiesto,
        hijos,
    }
}

fn target() -> Directorio {
    dir("target", false, vec![])
}

fn proyecto(nombre: &str) -> Directorio {
    dir(nombre, true, vec![target()])
}

fn partida(hijos: Vec<Directorio>) -> Partida {
    Partida {
        con_marca: false,
        con_manifiesto: false,
        manifiesto_al_lado: false,
        hijos,
    }
}

fn rutas(v: &Vec<Ruta>) -> Vec<String> {
    v.iter().map(escrita).collect()
}

#[test]
fn busca_todos_los_targets() {
    let mut marcado = target();
    marcado.con_marca = true;
    let mut archivo = proyecto("archivo");
    archivo.es_dir = false;
    let p = partida(vec![
        proyecto("zeta"),
        dir("grupo", false, vec![proyecto("b"), proyecto("a")]),
        // Los worktrees viven en directorios ocultos.
        dir(".teg", false, vec![proyecto("rama")]),
        // El ruido conocido se salta.
        dir("node_modules", false, vec![proyecto("x")]),
        dir(".git", false, vec![proyecto("x")]),
        dir("vendor", false, vec![proyecto("x")]),
        // Sin Cargo.toml al lado y sin marca no es un target...
        dir("ajeno", false, vec![target()]),
        // ...y con marca sí.
        dir("suelto", false, vec![marcado]),
        archivo,
    ]);
    assert_eq!(
        rutas(&resolver_targets(&ruta("base"), &p)),
        vec![
            "base/.teg/rama/target",
            "base/grupo/a/target",
            "base/grupo/b/target",
            "base/suelto/target",
            "base/zeta/target",
        ]
    );
}

#[test]
fn si_la_ruta_es_un_target_no_se_busca_mas() {
    let mut p = partida(vec![proyecto("dentro")]);
    p.con_marca = true;
    assert_eq!(rutas(&resolver_targets(&ruta("x/target"), &p)), vec!["x/target"]);
    p.con_marca = false;
    p.manifiesto_al_lado = true;
    assert_eq!(rutas(&resolver_targets(&ruta("x/target"), &p)), vec!["x/target"]);
    assert_eq!(
        rutas(&resolver_targets(&ruta("x/y"), &p)),
        vec!["x/y/dentro/target"]
    );
}

#[test]
fn nunca_se_baja_dentro_de_un_target() {
    // Aunque no sea un target de verdad.
    let falso = dir("target", true, vec![proyecto("dentro")]);
    let p = partida(vec![dir("p", false, vec![falso])]);
    assert!(resolver_targets(&ruta("base"), &p).is_empty());
}

#[test]
fn los_proyectos_se_buscan_hasta_cierta_profundidad() {
    let hondo = |n: usize| {
        let mut x = proyecto("p");
        for _ in 1..n {
            x = dir("d", false, vec![x]);
        }
        partida(vec![x])
    };
    assert_eq!(resolver_targets(&ruta("b"), &hondo(5)).len(), 1);
    assert_eq!(resolver_targets(&ruta("b"), &hondo(6)).len(), 0);
}

#[test]
fn las_rutas_se_ordenan_nombre_a_nombre() {
    // Como cadenas, `a-b/target` iría antes que `a/target`.
    let p = partida(vec![proyecto("a-b"), proyecto("a")]);
    assert_eq!(
        rutas(&resolver_targets(&ruta("b"), &p)),
        vec!["b/a/target", "b/a-b/target"]
    );
}

#[test]
fn en_que_directorios_se_buscan_proyectos() {
    for no in [
        "target",
        ".git",
        ".gw",
        ".cargo",
        ".rustup",
        ".venv",
        ".tox",
        "node_modules",
        "vendor",
    ] {
        assert!(!entra(&no.as_bytes().to_vec()));
    }
    assert!(entra(&b".teg".to_vec()));
    assert!(entra(&vec![0xff]));
}

#[test]
fn nombra_los_proyectos() {
    assert_eq!(nombrar_proyecto(&ruta("base"), &ruta("base/g/p/target")), "g/p");
    // La carpeta de partida es el propio proyecto.
    assert_eq!(nombrar_proyecto(&ruta("x/base"), &ruta("x/base/target")), "base");
    assert_eq!(nombrar_proyecto(&ruta("b"), &ruta("b/año/target")), "año");
    // No cuelga de la carpeta de partida.
    assert_eq!(nombrar_proyecto(&ruta("otra"), &ruta("x/p/target")), "/x/p");
    assert_eq!(
        nombrar_proyecto(&Ruta { partes: vec![] }, &ruta("target")),
        ""
    );
}

#[test]
fn la_raiz_contiene_al_target() {
    assert_eq!(escrita(&raiz_del_proyecto(&ruta("a/b/target"))), "a/b");
    assert!(raiz_del_proyecto(&Ruta { partes: vec![] }).partes.is_empty());
}

#[test]
fn lee_los_paquetes_del_workspace() {
    let salida = br#"{"packages":[
        {"name":"cargo-reap","targets":[{"name":"cargo-reap"},{"kind":["x"]},{"name":"build-script-build"}]},
        {"targets":[{"name":"sin-nombre"}]},
        {"name":"sin-targets"},
        {"name":7,"targets":[]}
    ]}"#
    .to_vec();
    let m = workspace_members(Some(&salida)).unwrap();
    assert_eq!(m.len(), 2);
    let targets = m.get("cargo-reap").unwrap();
    assert_eq!(targets.len(), 2);
    assert!(targets.contains("cargo_reap"));
    assert!(targets.contains("build_script_build"));
    assert!(!targets.contains("cargo-reap"));
    assert_eq!(m.get("sin-targets").unwrap().len(), 0);
    assert!(m.get("sin-nombre").is_none());
}

#[test]
fn sin_metadatos_no_hay_paquetes() {
    assert!(workspace_members(None).unwrap().is_empty());
    assert!(workspace_members(Some(&b"{}".to_vec())).unwrap().is_empty());
    assert!(workspace_members(Some(&br#"{"packages":{}}"#.to_vec()))
        .unwrap()
        .is_empty());
    assert!(workspace_members(Some(&b"{".to_vec())).is_err());
    assert!(workspace_members(Some(&vec![])).is_err());
    assert!(workspace_members(Some(&vec![0xff])).is_err());
}

#[test]
fn de_dos_paquetes_iguales_vale_el_ultimo() {
    let paquete = |nombre: Option<&str>, targets: &[&str]| Paquete {
        nombre: nombre.map(|s| s.to_string()),
        targets: targets.iter().map(|t| Some(t.to_string())).collect(),
    };
    let m = reunir_miembros(&vec![
        paquete(Some("a"), &["uno"]),
        paquete(None, &["dos"]),
        paquete(Some("a"), &["tres-cuatro"]),
    ]);
    assert_eq!(m.len(), 1);
    assert!(m.get("a").unwrap().contains("tres_cuatro"));
    assert!(!m.get("a").unwrap().contains("uno"));
    assert!(m.get("b").is_none());
}
