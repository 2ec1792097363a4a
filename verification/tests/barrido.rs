//! Fase sweep: plan, ejecución, papelera y purga.

use cargo_reap::artefacto::Archivo;
use cargo_reap::conjunto::Conjunto;
use cargo_reap::ruta::Ruta;
use cargo_reap::sweep::{
    balance, build_en_curso, bytes_purgados, execute, lote_vencido, peso_recursivo, plan_profile,
    purgar_papelera, segundos_de_retencion, Arbol, Carpeta, Entry, FotoDePerfil, Lote, Mode, Plan,
    Stats, Tarea, TRASH_DIR,
};

fn ruta(texto: &str) -> Ruta {
    Ruta {
        partes: texto.split('/').map(|p| p.as_bytes().to_vec()).collect(),
    }
}

fn escrita(r: &Ruta) -> String {
    String::from_utf8(r.relativa()).unwrap()
}

fn conjunto(textos: &[&str]) -> Conjunto {
    let mut c = Conjunto::new();
    for t in textos {
        c.insert(t.to_string());
    }
    c
}

fn entradas(v: &Vec<Entry>) -> Vec<(String, u64)> {
    v.iter().map(|e| (escrita(&e.path), e.bytes)).collect()
}

#[test]
fn plan_vacio_no_tiene_bytes() {
    let p = Plan::default();
    assert!(p.is_empty());
    assert_eq!(p.bytes(), 0);
}

fn plan_con(path: &str, bytes: u64) -> Plan {
    Plan {
        deps: vec![Entry {
            path: ruta(path),
            bytes,
        }],
        ..Default::default()
    }
}

#[test]
fn el_plan_suma_todas_sus_zonas() {
    let entrada = |n: &str, bytes: u64| Entry {
        path: ruta(n),
        bytes,
    };
    let p = Plan {
        deps: vec![entrada("d", 1), entrada("e", 2)],
        fingerprints: vec![entrada("f", 4)],
        builds: vec![entrada("b", 8)],
        incremental: vec![entrada("i", 16)],
        codegen: vec![entrada("c", 32)],
    };
    assert_eq!(p.bytes(), 63);
    assert_eq!(p.len(), 6);
    assert!(!p.is_empty());
    let orden: Vec<String> = p.todas().iter().map(|e| escrita(&e.path)).collect();
    assert_eq!(orden, vec!["d", "e", "f", "b", "i", "c"]);
}

#[test]
fn sin_lock_no_hay_build_en_curso() {
    assert!(!build_en_curso(None));
}

#[test]
fn con_el_lock_tomado_hay_build_en_curso() {
    assert!(!build_en_curso(Some(0)));
    assert!(build_en_curso(Some(-1)));
}

#[test]
fn dry_run_no_toca_nada() {
    let plan = plan_con("raiz/deps/libx-0123456789abcdef.rlib", 9);
    let e = execute(&plan, &ruta("raiz"), Mode::DryRun, 1);
    assert!(e.lote.is_none());
    assert!(e.tareas.is_empty(), "dry-run no debe borrar");
    let stats = balance(&plan, &vec![]);
    assert_eq!(stats.entradas, 0);
    assert_eq!(stats, Stats::default());
}

#[test]
fn papelera_preserva_la_ruta_relativa() {
    let plan = plan_con("raiz/debug/deps/libx-0123456789abcdef.rlib", 9);
    let e = execute(&plan, &ruta("raiz"), Mode::Trash, 1_700_000_000);
    let lote = e.lote.expect("no se creó el lote de papelera");
    assert_eq!(escrita(&lote), "raiz/.reap-trash/1700000000");
    assert_eq!(e.tareas.len(), 1);
    match &e.tareas[0] {
        Tarea::Mover { origen, destino } => {
            assert_eq!(
                escrita(origen),
                "raiz/debug/deps/libx-0123456789abcdef.rlib"
            );
            // Debe quedar bajo <trash>/<ts>/debug/deps/...
            assert_eq!(
                escrita(destino),
                "raiz/.reap-trash/1700000000/debug/deps/libx-0123456789abcdef.rlib"
            );
        }
        _ => panic!("debía moverse"),
    }
    let stats = balance(&plan, &vec![true]);
    assert_eq!(stats.entradas, 1);
    assert_eq!(stats.liberados, 9);
}

#[test]
fn lo_que_no_cuelga_de_target_no_se_mueve() {
    let plan = plan_con("otra/x", 9);
    let e = execute(&plan, &ruta("raiz"), Mode::Trash, 1);
    assert!(matches!(e.tareas[0], Tarea::Fuera));
    assert_eq!(
        balance(&plan, &vec![false]),
        Stats {
            liberados: 0,
            entradas: 0,
            fallos: 1
        }
    );
}

#[test]
fn sin_papelera_se_borra() {
    let plan = plan_con("otra/x", 9);
    let e = execute(&plan, &ruta("raiz"), Mode::Delete, 1);
    assert!(e.lote.is_none());
    match &e.tareas[0] {
        Tarea::Borrar(path) => assert_eq!(escrita(path), "otra/x"),
        _ => panic!("debía borrarse"),
    }
}

#[test]
fn el_balance_separa_exitos_de_fallos() {
    let mut plan = plan_con("r/a", 5);
    plan.codegen.push(Entry {
        path: ruta("r/b"),
        bytes: 7,
    });
    plan.codegen.push(Entry {
        path: ruta("r/c"),
        bytes: 11,
    });
    assert_eq!(
        balance(&plan, &vec![true, false, true]),
        Stats {
            liberados: 16,
            entradas: 2,
            fallos: 1
        }
    );
    // Si todo sale bien se libera lo que dice el plan.
    assert_eq!(balance(&plan, &vec![true, true, true]).liberados, plan.bytes());
}

fn lote(nombre: &str, bytes: u64) -> Lote {
    Lote {
        nombre: nombre.as_bytes().to_vec(),
        contenido: vec![Arbol::Archivo(bytes)],
    }
}

#[test]
fn la_purga_respeta_la_retencion() {
    let ahora: u64 = 1_700_000_000;
    let viejo = (ahora - 86_400 * 30).to_string();
    let nuevo = ahora.to_string();
    let lotes = vec![lote(&viejo, 5), lote(&nuevo, 100)];

    let purgables = purgar_papelera(&ruta("raiz"), &lotes, ahora, 86_400 * 7);
    assert_eq!(
        entradas(&purgables),
        vec![(format!("raiz/{TRASH_DIR}/{viejo}"), 5)],
        "el lote viejo debe purgarse y el reciente sobrevivir"
    );
    let liberados = bytes_purgados(&purgables, &vec![true]);
    assert_eq!(liberados, 5);
    assert_eq!(bytes_purgados(&purgables, &vec![false]), 0);
}

#[test]
fn cuando_vence_un_lote() {
    let vence = |n: &str, ahora: u64, retener: u64| lote_vencido(&n.as_bytes().to_vec(), ahora, retener);
    assert!(!vence("100", 107, 7));
    assert!(vence("100", 108, 7));
    // Del futuro, o con un nombre que no es un número: no se toca.
    assert!(!vence("200", 100, 0));
    assert!(!vence("", 1000, 0));
    assert!(!vence("12x", 1000, 0));
    assert!(!vence("-1", 1000, 0));
    assert!(!vence("18446744073709551616", u64::MAX, 0));
    assert!(vence("+1", 1000, 0));
    assert!(vence("0", u64::MAX, u64::MAX - 1));
    assert!(!lote_vencido(&vec![0xff], 1000, 0));
}

#[test]
fn un_lote_recien_hecho_no_vence() {
    for ts in [0u64, 9, 10, 1_700_000_000, u64::MAX] {
        let e = execute(&Plan::default(), &ruta("raiz"), Mode::Trash, ts);
        let lote = e.lote.unwrap();
        let nombre = lote.file_name().unwrap().clone();
        assert!(!lote_vencido(&nombre, ts, 0));
        if ts < u64::MAX {
            assert!(lote_vencido(&nombre, ts + 1, 0));
        }
    }
}

#[test]
fn los_dias_de_retencion() {
    assert_eq!(segundos_de_retencion(7), 604_800);
    assert_eq!(segundos_de_retencion(0), 0);
}

#[test]
fn el_peso_es_recursivo() {
    let arbol = vec![
        Arbol::Archivo(1),
        Arbol::Carpeta(vec![
            Arbol::Archivo(2),
            Arbol::Otro,
            Arbol::Carpeta(vec![Arbol::Archivo(4)]),
        ]),
        Arbol::Carpeta(vec![]),
        Arbol::Archivo(8),
    ];
    assert_eq!(peso_recursivo(&arbol), 15);
    assert_eq!(peso_recursivo(&vec![]), 0);
}

fn archivo(nombre: &str, bytes: u64) -> Archivo {
    Archivo {
        nombre: nombre.as_bytes().to_vec(),
        es_archivo: true,
        bytes,
    }
}

fn carpeta(nombre: &str, bytes: u64) -> Carpeta {
    Carpeta {
        nombre: nombre.as_bytes().to_vec(),
        es_dir: true,
        contenido: vec![Arbol::Archivo(bytes)],
    }
}

fn foto() -> FotoDePerfil {
    let mut no_dir = carpeta("archivo-bbbbbbbbbbbbbbbb", 999);
    no_dir.es_dir = false;
    FotoDePerfil {
        deps: vec![
            archivo("libviva-aaaaaaaaaaaaaaaa.rlib", 1),
            archivo("libmuerta-bbbbbbbbbbbbbbbb.rlib", 2),
            archivo("viva-aaaaaaaaaaaaaaaa.viva.0.rcgu.o", 4),
            archivo("muerta-bbbbbbbbbbbbbbbb.muerta.0.rcgu.o", 8),
            archivo("app.1a2b.0.rcgu.o", 16),
            archivo("suelto", 32),
        ],
        fingerprints: vec![
            carpeta("viva-aaaaaaaaaaaaaaaa", 64),
            carpeta("muerta-bbbbbbbbbbbbbbbb", 128),
            carpeta("sinhash", 256),
            no_dir,
        ],
        builds: vec![carpeta("otra-cccccccccccccccc", 512)],
        incremental: Some(vec![Arbol::Archivo(1024)]),
    }
}

#[test]
fn planifica_un_perfil() {
    let vivos = conjunto(&["aaaaaaaaaaaaaaaa"]);
    let p = plan_profile(&ruta("t/debug"), &foto(), &vivos, true, true);
    assert_eq!(
        entradas(&p.deps),
        vec![
            (
                "t/debug/deps/libmuerta-bbbbbbbbbbbbbbbb.rlib".to_string(),
                2
            ),
            (
                "t/debug/deps/muerta-bbbbbbbbbbbbbbbb.muerta.0.rcgu.o".to_string(),
                8
            ),
        ]
    );
    assert_eq!(
        entradas(&p.fingerprints),
        vec![(
            "t/debug/.fingerprint/muerta-bbbbbbbbbbbbbbbb".to_string(),
            128
        )]
    );
    assert_eq!(
        entradas(&p.builds),
        vec![("t/debug/build/otra-cccccccccccccccc".to_string(), 512)]
    );
    assert_eq!(
        entradas(&p.incremental),
        vec![("t/debug/incremental".to_string(), 1024)]
    );
    assert_eq!(
        entradas(&p.codegen),
        vec![
            (
                "t/debug/deps/viva-aaaaaaaaaaaaaaaa.viva.0.rcgu.o".to_string(),
                4
            ),
            ("t/debug/deps/app.1a2b.0.rcgu.o".to_string(), 16),
        ]
    );
}

#[test]
fn el_plan_respeta_lo_que_no_se_pide() {
    let vivos = conjunto(&["aaaaaaaaaaaaaaaa"]);
    let p = plan_profile(&ruta("t/debug"), &foto(), &vivos, false, false);
    assert!(p.incremental.is_empty());
    assert!(p.codegen.is_empty());
    assert_eq!(p.len(), 4);

    let mut vacia = foto();
    vacia.incremental = Some(vec![Arbol::Carpeta(vec![])]);
    assert!(plan_profile(&ruta("t"), &vacia, &vivos, true, false)
        .incremental
        .is_empty());
    vacia.incremental = None;
    assert!(plan_profile(&ruta("t"), &vacia, &vivos, true, false)
        .incremental
        .is_empty());
}

#[test]
fn con_todo_vivo_no_sale_nada() {
    let vivos = conjunto(&["aaaaaaaaaaaaaaaa", "bbbbbbbbbbbbbbbb", "cccccccccccccccc"]);
    assert!(plan_profile(&ruta("t"), &foto(), &vivos, false, false).is_empty());
}

#[test]
fn nada_sale_dos_veces() {
    let vivos = conjunto(&["aaaaaaaaaaaaaaaa"]);
    let p = plan_profile(&ruta("t"), &foto(), &vivos, true, true);
    let mut rutas: Vec<String> = p.todas().iter().map(|e| escrita(&e.path)).collect();
    let total = rutas.len();
    rutas.sort();
    rutas.dedup();
    assert_eq!(rutas.len(), total);
}

#[test]
fn en_la_papelera_nada_se_pisa() {
    let vivos = conjunto(&[]);
    let p = plan_profile(&ruta("t/debug"), &foto(), &vivos, true, true);
    let e = execute(&p, &ruta("t"), Mode::Trash, 7);
    let mut destinos: Vec<String> = Vec::new();
    for (tarea, entrada) in e.tareas.iter().zip(p.todas()) {
        match tarea {
            Tarea::Mover { origen, destino } => {
                assert_eq!(origen.partes, entrada.path.partes);
                // Quitar el lote y volver a poner la raíz deja la ruta como estaba.
                let rel = destino.strip_prefix(&ruta("t/.reap-trash/7")).unwrap();
                assert_eq!(ruta("t").extender(&rel).partes, origen.partes);
                destinos.push(escrita(destino));
            }
            _ => panic!("todo lo planificado se puede mover"),
        }
    }
    let total = destinos.len();
    assert_eq!(total, p.len());
    destinos.sort();
    destinos.dedup();
    assert_eq!(destinos.len(), total);
}
