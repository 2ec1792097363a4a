//! La línea de órdenes, las decisiones de una corrida y lo que se imprime.

use cargo_reap::artefacto::Report;
use cargo_reap::cli::{interpretar, Ajustes, Opciones, Pedido};
use cargo_reap::conjunto::{Conjunto, Miembros};
use cargo_reap::fecha::Instante;
use cargo_reap::fingerprint::Profile;
use cargo_reap::informe::{
    aviso_de_poda, linea_de_proyecto, lineas_de_informe, lineas_de_vivos, plan_resumen,
    resumen_final,
};
use cargo_reap::mark::Vivos;
use cargo_reap::proceso::{arrancar, siguiente, Accion, Arranque, Estado, Totales};
use cargo_reap::ruta::Ruta;
use cargo_reap::sweep::{Entry, Mode, Plan, Stats};

fn pedir(args: &[&str]) -> Pedido {
    interpretar(&args.iter().map(|a| a.to_string()).collect())
}

fn modo(args: &[&str]) -> Mode {
    pedir(args).ajustes.opciones(1).mode
}

#[test]
fn sin_argumentos_valen_los_ajustes_por_defecto() {
    let p = pedir(&[]);
    assert!(!p.ayuda);
    assert!(p.avisos.is_empty());
    let a = p.ajustes;
    assert_eq!(a.path, "target");
    assert_eq!(a.keep_configs, usize::MAX);
    assert_eq!(a.retain_days, 7);
    assert!(a.codegen);
    assert!(!a.list_dead && !a.incremental && !a.apply && !a.no_trash);
    let d = Ajustes::default();
    assert_eq!(d.path, "target");
}

#[test]
fn da_igual_invocarlo_de_las_dos_maneras() {
    let p = pedir(&["reap", "ruta", "--list-dead"]);
    assert_eq!(p.ajustes.path, "ruta");
    assert!(p.ajustes.list_dead);
    assert_eq!(pedir(&["reap"]).ajustes.path, "target");
}

#[test]
fn sin_apply_solo_se_informa() {
    assert_eq!(modo(&[]), Mode::DryRun);
    assert_eq!(modo(&["--no-trash"]), Mode::DryRun);
    assert_eq!(modo(&["--list-dead", "--incremental"]), Mode::DryRun);
    assert_eq!(modo(&["--apply"]), Mode::Trash);
    assert_eq!(modo(&["--apply", "--no-trash"]), Mode::Delete);
    assert_eq!(modo(&["--no-trash", "--apply"]), Mode::Delete);
}

#[test]
fn conserva_al_menos_una_configuracion() {
    let configs = |args: &[&str]| pedir(args).ajustes.keep_configs;
    assert_eq!(configs(&["--keep-configs", "3"]), 3);
    assert_eq!(configs(&["--keep-configs", "0"]), 1);
    assert_eq!(configs(&["--keep-configs", "muchas"]), 1);
    assert_eq!(configs(&["--keep-configs"]), 1);
    assert_eq!(configs(&["--keep-configs", "99999999999999999999"]), 1);
    assert_eq!(
        pedir(&["--keep-configs", "3", "--keep-configs", "0"]).avisos,
        vec![3, 1]
    );
}

#[test]
fn el_valor_de_una_opcion_se_consume() {
    let p = pedir(&["--keep-configs", "--apply", "x"]);
    assert!(!p.ajustes.apply);
    assert_eq!(p.ajustes.path, "x");
    let p = pedir(&["--retain-days", "-h"]);
    assert!(!p.ayuda);
    assert_eq!(p.ajustes.retain_days, 7);
}

#[test]
fn lee_las_demas_opciones() {
    let dias = |args: &[&str]| pedir(args).ajustes.retain_days;
    assert_eq!(dias(&["--retain-days", "30"]), 30);
    assert_eq!(dias(&["--retain-days", "0"]), 0);
    assert_eq!(dias(&["--retain-days", "x"]), 7);
    assert_eq!(dias(&["--retain-days"]), 7);
    assert!(pedir(&["--incremental"]).ajustes.incremental);
    assert!(!pedir(&["--keep-codegen"]).ajustes.codegen);
    assert!(pedir(&["--keep-codegen", "--codegen"]).ajustes.codegen);
    assert_eq!(pedir(&["a", "b"]).ajustes.path, "b");
    assert_eq!(pedir(&["--desconocida"]).ajustes.path, "--desconocida");
}

#[test]
fn la_ayuda_corta_lo_que_sigue() {
    let p = pedir(&["--keep-configs", "2", "-h", "--keep-configs", "3"]);
    assert!(p.ayuda);
    assert_eq!(p.avisos, vec![2]);
    assert!(pedir(&["--help"]).ayuda);
}

#[test]
fn con_varios_proyectos_no_hay_detalle() {
    assert!(pedir(&[]).ajustes.opciones(1).detallado);
    assert!(!pedir(&[]).ajustes.opciones(2).detallado);
}

fn opciones(args: &[&str]) -> Opciones {
    pedir(args).ajustes.opciones(1)
}

fn miembros() -> Miembros {
    let mut m = Miembros::new();
    m.insert("app".to_string(), Conjunto::new());
    m
}

fn perfiles() -> Vec<Profile> {
    let vacia = || Ruta { partes: vec![] };
    vec![Profile {
        label: "debug".to_string(),
        dir: vacia(),
        fingerprint_dir: vacia(),
        deps_dir: vacia(),
        units: vec![],
    }]
}

#[test]
fn decide_que_hacer_con_un_target() {
    let o = opciones(&["--apply"]);
    assert_eq!(
        arrancar(&Miembros::new(), &perfiles(), &o),
        Arranque::SinPaquetes
    );
    assert_eq!(arrancar(&miembros(), &vec![], &o), Arranque::SinPerfiles);
    assert_eq!(
        arrancar(&miembros(), &perfiles(), &o),
        Arranque::Seguir { purgar: true }
    );
    assert_eq!(
        arrancar(&miembros(), &perfiles(), &opciones(&[])),
        Arranque::Seguir { purgar: false }
    );
    // Pedir la lista de lo muerto no borra nada.
    assert_eq!(
        arrancar(&miembros(), &perfiles(), &opciones(&["--apply", "--list-dead"])),
        Arranque::Seguir { purgar: false }
    );
}

#[test]
fn decide_que_hacer_con_un_perfil() {
    let libre = Estado::Consultado { flock: Some(0) };
    let tomado = Estado::Consultado { flock: Some(-1) };
    let ausente = Estado::Consultado { flock: None };
    assert_eq!(siguiente(false, false, Estado::Analizado), Accion::Consultar);
    assert_eq!(siguiente(false, false, libre), Accion::Barrer);
    assert_eq!(siguiente(false, false, ausente), Accion::Barrer);
    assert_eq!(siguiente(false, false, tomado), Accion::Omitir);
    for estado in [Estado::Analizado, libre, tomado, ausente] {
        assert_eq!(siguiente(true, false, estado), Accion::Listar);
        assert_eq!(siguiente(true, true, estado), Accion::Listar);
        assert_eq!(siguiente(false, true, estado), Accion::NoTocar);
    }
}

#[test]
fn lleva_la_cuenta() {
    let mut a = Totales::default();
    a.anotar_purga(3);
    a.anotar_ocupado("debug");
    a.anotar_barrido(
        10,
        Stats {
            liberados: 7,
            entradas: 2,
            fallos: 1,
        },
    );
    let mut b = Totales::default();
    b.anotar_ocupado("release");
    b.anotar_barrido(
        5,
        Stats {
            liberados: 5,
            entradas: 1,
            fallos: 0,
        },
    );
    a.sumar(&b);
    assert_eq!((a.plan, a.liberado, a.purgado, a.fallos), (15, 12, 3, 1));
    assert_eq!(a.ocupados, vec!["debug", "release"]);
}

#[test]
fn avisa_de_la_poda() {
    assert_eq!(
        aviso_de_poda(2),
        vec![
            "⚠ --keep-configs 2: se descartarán configuraciones del workspace por antigüedad.",
            "  Si la que construyes a continuación es una de ellas, el build recompila entero.",
        ]
    );
}

#[test]
fn una_linea_por_proyecto() {
    let varios = pedir(&[]).ajustes.opciones(2);
    assert_eq!(
        linea_de_proyecto("g/ñandú", 1536, &varios),
        Some(format!("  {:<44} {:>10}", "g/ñandú", "1.50 KB"))
    );
    assert_eq!(linea_de_proyecto("p", 0, &varios), None);
    assert_eq!(linea_de_proyecto("p", 1, &opciones(&[])), None);
    let lista = pedir(&["--list-dead"]).ajustes.opciones(2);
    assert_eq!(linea_de_proyecto("p", 1, &lista), None);
}

#[test]
fn cuenta_el_grafo() {
    let mut vivos = Vivos {
        hashes: Conjunto::new(),
        roots: 3,
        reachable: 40,
        edges_total: 8,
        edges_resolved: 7,
        anchor: None,
    };
    let grafo = "grafo: 7/8 aristas resueltas (87.5%) · 3 raíces -> 40 unidades vivas";
    assert_eq!(lineas_de_vivos(&vivos, "87.5"), vec![grafo]);
    vivos.anchor = Some(Instante {
        segundos: 20_000 * 86_400,
        nanos: 1,
    });
    assert_eq!(
        lineas_de_vivos(&vivos, "87.5"),
        vec![grafo, "actividad más reciente: 2024-10-04"]
    );
}

fn informe(vivos: &Conjunto) -> Report<'_> {
    Report {
        units: 12,
        live_bytes: 1536,
        dead_bytes: 0,
        dead_files: 0,
        live_files: 3,
        huerfanos: 0,
        dead_paths: vec![],
        sin_raices: false,
        vivos,
    }
}

#[test]
fn cuenta_un_perfil() {
    let vivos = Conjunto::new();
    assert_eq!(
        lineas_de_informe(&informe(&vivos), "debug"),
        vec![
            "",
            "── perfil debug",
            "   unidades en .fingerprint : 12",
            "   deps/  vivo     1.50 KB  (3 archivos)",
            "   deps/  muerto    0.00 B  (0 archivos)",
        ]
    );
    let mut r = informe(&vivos);
    r.sin_raices = true;
    r.huerfanos = 2;
    assert_eq!(
        lineas_de_informe(&r, "x"),
        vec![
            "",
            "── perfil x",
            "   sin unidades del workspace: no se toca nada",
            "   unidades en .fingerprint : 12",
            "   deps/  vivo     1.50 KB  (3 archivos)",
            "   deps/  muerto    0.00 B  (0 archivos)",
            "   archivos sin hash reconocible: 2 (no se tocan)",
        ]
    );
}

#[test]
fn cuenta_un_plan() {
    let entrada = |bytes: u64| Entry {
        path: Ruta { partes: vec![] },
        bytes,
    };
    assert!(plan_resumen(&Plan::default()).is_empty());
    let plan = Plan {
        deps: vec![entrada(1024), entrada(512)],
        codegen: vec![entrada(7)],
        ..Default::default()
    };
    assert_eq!(
        plan_resumen(&plan),
        vec![
            "   a recolectar:".to_string(),
            format!("   · {:<14} {:>10}  (2 entradas)", "deps/", "1.50 KB"),
            format!("   · {:<14} {:>10}  (1 entradas)", "codegen .o", "7.00 B"),
        ]
    );
}

#[test]
fn cuenta_la_corrida() {
    let linea = "=".repeat(64);
    let mut total = Totales::default();
    total.plan = 1536;
    assert_eq!(
        resumen_final(&total, Mode::DryRun, 7),
        vec![
            "",
            linea.as_str(),
            "recuperable      1.50 KB",
            "modo          simulación — no se tocó nada",
            "              usa --apply para moverlo a la papelera",
        ]
    );
    total.liberado = 1024;
    total.purgado = 5;
    total.fallos = 2;
    total.ocupados = vec!["debug".to_string(), "release".to_string()];
    assert_eq!(
        resumen_final(&total, Mode::Trash, 30),
        vec![
            "",
            linea.as_str(),
            "recuperable      1.50 KB",
            "liberado         1.00 KB  (movido a .reap-trash/)",
            "              se purga solo a los 30 días",
            "papelera          5.00 B  purgada por retención",
            "fallos        2 entradas no se pudieron mover",
            "omitidos      debug, release (build en curso)",
        ]
    );
    total.purgado = 0;
    total.fallos = 0;
    total.ocupados = vec![];
    assert_eq!(
        resumen_final(&total, Mode::Delete, 7),
        vec![
            "",
            linea.as_str(),
            "recuperable      1.50 KB",
            "liberado         1.00 KB  (borrado, sin papelera)",
        ]
    );
}
