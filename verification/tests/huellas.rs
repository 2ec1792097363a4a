//! Lectura de `.fingerprint/`: nombres, hashes y aristas.

use cargo_reap::fecha::Instante;
use cargo_reap::fingerprint::{
    aristas, identifica_unidad, index_by_fp_hash, is_hash, parse_cargo_hash, read_deps, read_units,
    separar_hash, split_kind, ArchivoDeUnidad, Celda, DirDeUnidad, Unit,
};

fn par(a: &str, b: &str) -> (String, String) {
    (a.to_string(), b.to_string())
}

#[test]
fn separa_tipo_y_crate() {
    assert_eq!(
        split_kind("lib-sqlparser"),
        ("lib".into(), "sqlparser".into())
    );
    assert_eq!(
        split_kind("test-lib-app_core"),
        ("test-lib".into(), "app_core".into())
    );
    assert_eq!(
        split_kind("build-script-build"),
        ("build-script-build".into(), String::new())
    );
    // Un crate con guiones no debe partirse por la mitad.
    assert_eq!(
        split_kind("lib-aws-sdk-glue"),
        ("lib".into(), "aws-sdk-glue".into())
    );
}

#[test]
fn separa_tipos_poco_comunes() {
    assert_eq!(
        split_kind("run-build-script-build-script-build"),
        par("run-build-script-build-script-build", "")
    );
    assert_eq!(
        split_kind("run-build-script-foo"),
        par("run-build-script", "foo")
    );
    assert_eq!(split_kind("bin"), par("bin", ""));
    // `library` no es `lib` seguido de un guion.
    assert_eq!(split_kind("library-x"), par("library", "x"));
    assert_eq!(split_kind("solo"), par("solo", ""));
    assert_eq!(split_kind(""), par("", ""));
    assert_eq!(split_kind("otro-a-b"), par("otro", "a-b"));
}

#[test]
fn separar_tipo_y_crate_no_pierde_nada() {
    for nombre in ["lib-a", "lib", "test-bin-x-y", "raro-z", "nada", "lib-"] {
        let (tipo, resto) = split_kind(nombre);
        let junto = format!("{tipo}-{resto}");
        assert!(nombre == junto || (nombre == tipo && resto.is_empty()));
    }
}

#[test]
fn decodifica_hash_little_endian() {
    // Valor real tomado del target/debug/.fingerprint de un proyecto real: el dep `log`
    // que sqlparser declara como 237437814390372343 se escribe f7b7fb266f8c4b03.
    assert_eq!(
        parse_cargo_hash("f7b7fb266f8c4b03"),
        Some(237437814390372343)
    );
    assert_eq!(parse_cargo_hash("no-es-hex"), None);
    assert_eq!(parse_cargo_hash("abc"), None);
}

#[test]
fn decodifica_hash_en_los_bordes() {
    assert_eq!(parse_cargo_hash("0100000000000000"), Some(1));
    assert_eq!(parse_cargo_hash("FFffFFffFFffFFff"), Some(u64::MAX));
    assert_eq!(parse_cargo_hash(""), None);
    assert_eq!(parse_cargo_hash("f7b7fb266f8c4b0"), None);
    assert_eq!(parse_cargo_hash("f7b7fb266f8c4b033"), None);
    assert_eq!(parse_cargo_hash("f7b7fb266f8c4b0g"), None);
    assert_eq!(parse_cargo_hash("+7b7fb266f8c4b03"), None);
    // Dieciséis bytes que no son dieciséis caracteres.
    assert_eq!(parse_cargo_hash("ññññññññ"), None);
}

#[test]
fn el_hash_de_cargo_va_y_vuelve() {
    for n in [0u64, 1, 255, 256, 237437814390372343, u64::MAX] {
        let mut escrito = String::new();
        for b in n.to_le_bytes() {
            escrito.push_str(&format!("{b:02x}"));
        }
        assert_eq!(parse_cargo_hash(&escrito), Some(n));
    }
}

#[test]
fn reconoce_sufijos_de_hash() {
    assert!(is_hash("3aed8a7b2a1da43b"));
    assert!(!is_hash("glue"));
    assert!(!is_hash("1.0"));
}

#[test]
fn un_hash_tiene_ocho_digitos_o_mas() {
    assert!(is_hash("01234567"));
    assert!(is_hash("ABCDEF01"));
    assert!(!is_hash("0123456"));
    assert!(!is_hash(""));
    // Ocho bytes o más que no son hexadecimales.
    assert!(!is_hash("ññññ"));
}

#[test]
fn separa_el_hash_del_paquete() {
    assert_eq!(
        separar_hash("aws-sdk-glue-e7411d878efa0c18"),
        Some(par("aws-sdk-glue", "e7411d878efa0c18"))
    );
    assert_eq!(separar_hash("-0123456789abcdef"), Some(par("", "0123456789abcdef")));
    assert_eq!(separar_hash("sinhash"), None);
    assert_eq!(separar_hash("pkg-corto"), None);
    assert_eq!(separar_hash("0123456789abcdef"), None);
}

#[test]
fn que_archivos_identifican_una_unidad() {
    assert!(identifica_unidad("lib-sqlparser"));
    assert!(!identifica_unidad("invoked.timestamp"));
    assert!(!identifica_unidad("lib-sqlparser.json"));
    assert!(!identifica_unidad("dep-lib-sqlparser"));
    assert!(!identifica_unidad("output-lib-sqlparser"));
    assert!(identifica_unidad("deplib"));
}

#[test]
fn lee_las_aristas_de_las_dos_versiones() {
    // `[pkg_hash, nombre, public, fp_hash]` y `[pkg_hash, nombre, fp_hash]`.
    let raw = r#"{"deps":[[1,"log",false,237437814390372343],[2,"serde",77]]}"#;
    let deps = read_deps(raw).unwrap();
    assert_eq!(
        deps,
        vec![
            ("log".to_string(), 237437814390372343),
            ("serde".to_string(), 77)
        ]
    );
}

#[test]
fn lee_aristas_raras() {
    // Sin nombre, sin número, con un negativo al final, y una que no es una lista.
    let raw = r#"{"deps":[[5],["x"],[9,"y",-1],"z",[1.5,"w",3]]}"#;
    let deps = read_deps(raw).unwrap();
    assert_eq!(
        deps,
        vec![
            (String::new(), 5),
            ("y".to_string(), 9),
            ("w".to_string(), 3)
        ]
    );
    assert_eq!(read_deps("{}").unwrap(), vec![]);
    assert_eq!(read_deps(r#"{"deps":3}"#).unwrap(), vec![]);
    assert_eq!(read_deps("[]").unwrap(), vec![]);
}

#[test]
fn un_json_roto_es_un_error() {
    assert!(read_deps("{").is_err());
    assert!(read_deps("").is_err());
}

#[test]
fn las_aristas_salen_de_las_filas() {
    let filas = vec![
        Some(vec![
            Celda::Natural(1),
            Celda::Texto("log".to_string()),
            Celda::Otra,
            Celda::Natural(42),
        ]),
        None,
        Some(vec![Celda::Texto("sola".to_string())]),
        Some(vec![
            Celda::Texto("a".to_string()),
            Celda::Texto("b".to_string()),
            Celda::Natural(7),
        ]),
    ];
    assert_eq!(
        aristas(&filas),
        vec![("log".to_string(), 42), ("a".to_string(), 7)]
    );
}

fn archivo(nombre: &[u8], tiene_json: bool, huella: Option<&str>, json: Option<&str>) -> ArchivoDeUnidad {
    ArchivoDeUnidad {
        nombre: nombre.to_vec(),
        tiene_json,
        huella: huella.map(|s| s.to_string()),
        json: json.map(|s| s.to_string()),
    }
}

fn dir(nombre: &[u8], es_dir: bool, archivos: Vec<ArchivoDeUnidad>) -> DirDeUnidad {
    DirDeUnidad {
        nombre: nombre.to_vec(),
        es_dir,
        invoked: Some(Instante {
            segundos: 5,
            nanos: 0,
        }),
        archivos,
    }
}

#[test]
fn lee_las_unidades() {
    let dirs = vec![
        dir(
            b"sqlparser-3aed8a7b2a1da43b",
            true,
            vec![
                archivo(b"invoked.timestamp", false, None, None),
                archivo(
                    b"lib-sqlparser",
                    true,
                    Some("  f7b7fb266f8c4b03\n"),
                    Some(r#"{"deps":[[1,"log",false,9]]}"#),
                ),
                archivo(b"lib-sqlparser.json", false, None, None),
                archivo(b"dep-lib-sqlparser", true, None, None),
                // Sin `.json` al lado no es una unidad.
                archivo(b"suelto", false, Some("f7b7fb266f8c4b03"), None),
                // Con un nombre que no es texto, tampoco.
                archivo(b"\xff", true, None, None),
            ],
        ),
        // Sin hash en el nombre, o sin ser un directorio, se saltan.
        dir(b"sinhash", true, vec![archivo(b"lib-x", true, None, None)]),
        dir(
            b"x-3aed8a7b2a1da43b",
            false,
            vec![archivo(b"lib-x", true, None, None)],
        ),
        dir(
            b"\xff-3aed8a7b2a1da43b",
            true,
            vec![archivo(b"lib-x", true, None, None)],
        ),
        // Con el JSON roto y sin huella, la unidad queda sin aristas y sin hash.
        dir(
            b"a-b-0123456789abcdef",
            true,
            vec![archivo(b"bin-a", true, Some("no"), Some("{"))],
        ),
    ];
    let units = read_units(&dirs);
    assert_eq!(units.len(), 2);
    assert_eq!(units[0].pkg, "sqlparser");
    assert_eq!(units[0].stem, "lib-sqlparser");
    assert_eq!(units[0].filename_hash, "3aed8a7b2a1da43b");
    assert_eq!(units[0].fp_hash, Some(237437814390372343));
    assert_eq!(units[0].deps, vec![("log".to_string(), 9)]);
    assert_eq!(
        units[0].invoked,
        Some(Instante {
            segundos: 5,
            nanos: 0
        })
    );
    assert_eq!(units[1].pkg, "a-b");
    assert_eq!(units[1].stem, "bin-a");
    assert_eq!(units[1].fp_hash, None);
    assert!(units[1].deps.is_empty());
}

fn con_huella(fp: Option<u64>) -> Unit {
    Unit {
        pkg: "p".to_string(),
        stem: "lib-p".to_string(),
        filename_hash: "0123456789abcdef".to_string(),
        fp_hash: fp,
        deps: Vec::new(),
        invoked: None,
    }
}

#[test]
fn indexa_por_huella() {
    let units = vec![
        con_huella(Some(7)),
        con_huella(None),
        con_huella(Some(8)),
        con_huella(Some(7)),
    ];
    let indice = index_by_fp_hash(&units);
    assert_eq!(indice.len(), 2);
    assert_eq!(indice.get(&7), Some(&vec![0, 3]));
    assert_eq!(indice.get(&8), Some(&vec![2]));
    assert_eq!(indice.get(&9), None);
}

#[test]
fn una_copia_dice_lo_mismo() {
    let mut u = con_huella(Some(7));
    u.deps = vec![("a".to_string(), 1), ("b".to_string(), 2)];
    let copia = u.clone();
    assert_eq!(copia.pkg, u.pkg);
    assert_eq!(copia.stem, u.stem);
    assert_eq!(copia.filename_hash, u.filename_hash);
    assert_eq!(copia.fp_hash, u.fp_hash);
    assert_eq!(copia.deps, u.deps);
    assert_eq!(copia.invoked, u.invoked);
}
