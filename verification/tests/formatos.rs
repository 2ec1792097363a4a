//! Fechas, tamaños y operaciones sobre texto.

use cargo_reap::fecha::{civil_from_days, fecha, Instante};
use cargo_reap::orden::{ordenar_rutas, va_antes};
use cargo_reap::ruta::Ruta;
use cargo_reap::tamano::human;
use cargo_reap::texto::{
    alinear_derecha, alinear_izquierda, cambiar, escribir_decimal, leer_natural, partir_primero,
    partir_ultimo, recortar, se_llama, tiene_prefijo, tiene_sufijo, unir,
};

#[test]
fn convierte_dias_a_fecha() {
    assert_eq!(civil_from_days(0), (1970, 1, 1));
    assert_eq!(civil_from_days(20_000), (2024, 10, 4));
}

#[test]
fn convierte_dias_de_los_bordes() {
    assert_eq!(civil_from_days(-1), (1969, 12, 31));
    assert_eq!(civil_from_days(10_957), (2000, 1, 1));
    assert_eq!(civil_from_days(11_016), (2000, 2, 29));
    assert_eq!(civil_from_days(11_017), (2000, 3, 1));
    assert_eq!(civil_from_days(47_540), (2100, 2, 28));
    assert_eq!(civil_from_days(47_541), (2100, 3, 1));
    assert_eq!(civil_from_days(-719_468), (0, 3, 1));
    assert_eq!(civil_from_days(-719_469), (0, 2, 29));
}

#[test]
fn los_dias_van_en_orden() {
    let mut antes = civil_from_days(-150_000);
    for dia in -149_999..150_000 {
        let hoy = civil_from_days(dia);
        assert!(antes < hoy);
        antes = hoy;
    }
}

fn instante(segundos: i64) -> Instante {
    Instante { segundos, nanos: 0 }
}

#[test]
fn escribe_fechas() {
    assert_eq!(fecha(instante(0)), "1970-01-01");
    assert_eq!(fecha(instante(86_399)), "1970-01-01");
    assert_eq!(fecha(instante(86_400)), "1970-01-02");
    assert_eq!(fecha(instante(20_000 * 86_400)), "2024-10-04");
    assert_eq!(fecha(instante(-1)), "?");
    assert_eq!(fecha(instante(253_402_300_800)), "10000-01-01");
    assert_eq!(fecha(instante(i64::MAX)), "292277026596-12-04");
}

#[test]
fn compara_instantes() {
    let a = Instante {
        segundos: 1,
        nanos: 5,
    };
    let b = Instante {
        segundos: 1,
        nanos: 6,
    };
    assert!(a.antes(&b));
    assert!(!b.antes(&a));
    assert!(!a.antes(&a));
    assert!(instante(-1).antes(&instante(0)));
}

#[test]
fn formatea_tamanos() {
    assert_eq!(human(0), "0.00 B");
    assert_eq!(human(1536), "1.50 KB");
}

#[test]
fn formatea_tamanos_de_los_bordes() {
    assert_eq!(human(1023), "1023.00 B");
    assert_eq!(human(1024), "1.00 KB");
    // Justo a medio camino, al par.
    assert_eq!(human(1024 + 128), "1.12 KB");
    assert_eq!(human(1024 + 384), "1.38 KB");
    // Redondear no cambia de unidad.
    assert_eq!(human(1024 * 1024 - 1), "1024.00 KB");
    assert_eq!(human(1 << 40), "1.00 TB");
    assert_eq!(human(u64::MAX), "16777216.00 TB");
}

fn con_flotantes(bytes: u64) -> String {
    let unidades = ["B", "KB", "MB", "GB", "TB"];
    let mut v = bytes as f64;
    let mut i = 0;
    while v >= 1024.0 && i < unidades.len() - 1 {
        v /= 1024.0;
        i += 1;
    }
    format!("{v:.2} {}", unidades[i])
}

#[test]
fn los_tamanos_son_los_de_la_coma_flotante() {
    for n in 0..20_000u64 {
        assert_eq!(human(n), con_flotantes(n));
    }
    let mut x: u64 = 0x9e37_79b9_7f4a_7c15;
    for i in 0..20_000u32 {
        x ^= x << 13;
        x ^= x >> 7;
        x ^= x << 17;
        let n = x >> (i % 64);
        assert_eq!(human(n), con_flotantes(n));
        // Y los que quedan a medio camino entre dos centésimas, o entre dos flotantes.
        let medio = (x >> 24) * 128;
        assert_eq!(human(medio), con_flotantes(medio));
    }
    for n in [
        (1u64 << 53) - 1,
        1 << 53,
        (1 << 53) + 1,
        (1 << 53) + 3,
        (1 << 54) - 1,
        (1 << 63) + 1024,
        (1 << 63) + 3072,
        u64::MAX - 1024,
        u64::MAX - 1023,
    ] {
        assert_eq!(human(n), con_flotantes(n));
    }
}

#[test]
fn lee_numeros_como_el_lenguaje() {
    for s in [
        "", "0", "7", "007", "+7", "-7", "+", "++1", "1+", " 1", "1 ", "12a", "٣", "1_000",
        "18446744073709551615", "18446744073709551616", "99999999999999999999999",
    ] {
        assert_eq!(leer_natural(s, u64::MAX), s.parse::<u64>().ok(), "{s:?}");
        assert_eq!(
            leer_natural(s, u8::MAX as u64),
            s.parse::<u8>().ok().map(u64::from),
            "{s:?}"
        );
    }
}

#[test]
fn escribe_numeros_y_los_vuelve_a_leer() {
    for n in [0u64, 9, 10, 99, 100, 1_700_000_000, u64::MAX] {
        assert_eq!(escribir_decimal(n), n.to_string());
        assert_eq!(leer_natural(&escribir_decimal(n), u64::MAX), Some(n));
    }
}

#[test]
fn recorta_todos_los_blancos() {
    for u in 0..=0x10ffffu32 {
        if let Some(c) = char::from_u32(u) {
            let s: String = [c, 'x', c].iter().collect();
            assert_eq!(recortar(&s), s.trim(), "{u:x}");
        }
    }
    assert_eq!(recortar("  a b \n"), "a b");
    assert_eq!(recortar(" \t "), "");
}

#[test]
fn parte_textos() {
    assert_eq!(
        partir_ultimo("a-b-c", '-'),
        Some(("a-b".to_string(), "c".to_string()))
    );
    assert_eq!(
        partir_primero("a-b-c", '-'),
        Some(("a".to_string(), "b-c".to_string()))
    );
    assert_eq!(partir_primero("ñ.é", '.'), Some(("ñ".to_string(), "é".to_string())));
    assert_eq!(partir_ultimo("abc", '-'), None);
    assert_eq!(partir_primero("", '-'), None);
}

#[test]
fn compara_extremos() {
    assert!(tiene_prefijo("dep-lib", "dep-"));
    assert!(!tiene_prefijo("de", "dep-"));
    assert!(tiene_sufijo("x.rcgu.o", ".rcgu.o"));
    assert!(!tiene_sufijo("o", ".rcgu.o"));
    assert!(tiene_sufijo("x", ""));
    assert!(se_llama(&b"deps".to_vec(), "deps"));
    assert!(!se_llama(&b"deps2".to_vec(), "deps"));
    assert!(!se_llama(&vec![0xff], "\u{fffd}"));
}

#[test]
fn alinea_por_caracteres() {
    assert_eq!(alinear_izquierda("ñu", 4, ' '), format!("{:<4}", "ñu"));
    assert_eq!(alinear_derecha("ñu", 4, ' '), format!("{:>4}", "ñu"));
    assert_eq!(alinear_derecha("largo", 2, '0'), "largo");
    assert_eq!(alinear_izquierda("largo", 2, '0'), "largo");
}

#[test]
fn cambia_y_une() {
    assert_eq!(cambiar("a-b-c", '-', '_'), "a_b_c");
    assert_eq!(unir(&vec![], ", "), "");
    assert_eq!(unir(&vec!["a".to_string()], ", "), "a");
    assert_eq!(unir(&vec!["a".to_string(), "b".to_string()], ", "), "a, b");
}

fn ruta(partes: &[&[u8]]) -> Ruta {
    Ruta {
        partes: partes.iter().map(|p| p.to_vec()).collect(),
    }
}

#[test]
fn ordena_textos_y_rutas() {
    assert!(va_antes("debug", "release"));
    assert!(va_antes("debug", "debug2"));
    assert!(!va_antes("debug", "debug"));
    assert!(va_antes("", "a"));
    let r = ordenar_rutas(vec![
        ruta(&[b"b"]),
        ruta(&[b"a", b"z"]),
        ruta(&[b"a"]),
        ruta(&[b"\xff"]),
        ruta(&[b"a"]),
    ]);
    let partes: Vec<Vec<Vec<u8>>> = r.into_iter().map(|x| x.partes).collect();
    assert_eq!(
        partes,
        vec![
            ruta(&[b"a"]).partes,
            ruta(&[b"a"]).partes,
            ruta(&[b"a", b"z"]).partes,
            ruta(&[b"b"]).partes,
            ruta(&[b"\xff"]).partes,
        ]
    );
}

#[test]
fn quita_y_pone_la_base() {
    let base = ruta(&[b"a", b"b"]);
    let r = ruta(&[b"a", b"b", b"c", b"d"]);
    let resto = r.strip_prefix(&base).unwrap();
    assert_eq!(resto.relativa(), b"c/d".to_vec());
    assert_eq!(base.extender(&resto).partes, r.partes);
    assert!(base.strip_prefix(&r).is_none());
    assert!(ruta(&[b"a", b"x"]).strip_prefix(&base).is_none());
    assert!(base.strip_prefix(&base).unwrap().partes.is_empty());
    assert_eq!(base.parent().unwrap().partes, ruta(&[b"a"]).partes);
    assert!(ruta(&[]).parent().is_none());
    assert!(ruta(&[]).file_name().is_none());
}
