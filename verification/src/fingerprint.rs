//! Lectura del árbol `target/<profile>/.fingerprint/` que mantiene Cargo.
//!
//! Cargo escribe, por cada unidad de compilación, un directorio
//! `<paquete>-<hash>/` que contiene:
//!
//! ```text
//! sqlparser-3aed8a7b2a1da43b/
//!   invoked.timestamp        <- se toca en cada build que usa la unidad
//!   lib-sqlparser            <- hash de fingerprint, en hexadecimal
//!   lib-sqlparser.json       <- features, rustflags, perfil y aristas a deps
//!   dep-lib-sqlparser        <- dep-info binario (no lo usamos)
//! ```
//!
//! El `<hash>` del nombre del directorio es el mismo que Cargo pasa a rustc
//! vía `-C extra-filename`, así que mapea directo contra `deps/lib<crate>-<hash>.rlib`.

use crate::fecha::Instante;
use crate::json::{self, ArbolJson, JsonInvalido};
use crate::ruta::Ruta;
use crate::texto;
use std::collections::HashMap;
use vstd::prelude::*;
use vstd::string::*;
use vstd::utf8::*;

pub use crate::perfiles::discover_profiles;

verus! {

/// Una unidad de compilación tal como la registra Cargo.
#[derive(Debug)]
pub struct Unit {
    /// Nombre del paquete, sin el sufijo de hash: `sqlparser`.
    pub pkg: String,
    /// Nombre del archivo que identifica la unidad: `lib-sqlparser`, `test-lib-foo`.
    pub stem: String,
    /// Sufijo de hash del directorio; coincide con el de `deps/`.
    pub filename_hash: String,
    /// Hash de fingerprint que otras unidades usan para referenciar a esta.
    pub fp_hash: Option<u64>,
    /// Aristas hacia dependencias: `(nombre, hash_de_fingerprint)`.
    pub deps: Vec<(String, u64)>,
    /// mtime de `invoked.timestamp`: última vez que un build usó la unidad.
    pub invoked: Option<Instante>,
}

/// Lo que una unidad dice, como valor matemático.
#[verifier::ext_equal]
pub struct UnidadVista {
    pub pkg: Seq<char>,
    pub stem: Seq<char>,
    pub filename_hash: Seq<char>,
    pub fp_hash: Option<u64>,
    pub deps: Seq<(Seq<char>, u64)>,
    pub invoked: Option<Instante>,
}

/// Las aristas, con los nombres como secuencias.
pub open spec fn aristas_vistas(deps: Seq<(String, u64)>) -> Seq<(Seq<char>, u64)> {
    deps.map_values(|d: (String, u64)| (d.0@, d.1))
}

impl View for Unit {
    type V = UnidadVista;

    open spec fn view(&self) -> UnidadVista {
        UnidadVista {
            pkg: self.pkg@,
            stem: self.stem@,
            filename_hash: self.filename_hash@,
            fp_hash: self.fp_hash,
            deps: aristas_vistas(self.deps@),
            invoked: self.invoked,
        }
    }
}

impl Clone for Unit {
    fn clone(&self) -> (r: Unit)
        ensures
            r@ == self@,
    {
        let mut deps: Vec<(String, u64)> = Vec::new();
        for i in 0..self.deps.len()
            invariant
                aristas_vistas(deps@) == self@.deps.take(i as int),
        {
            let ghost antes = deps@;
            let nombre = self.deps[i].0.clone();
            deps.push((nombre, self.deps[i].1));
            assert(aristas_vistas(deps@) =~= aristas_vistas(antes).push(self@.deps[i as int]));
            assert(self@.deps.take(i + 1) =~= self@.deps.take(i as int).push(
                self@.deps[i as int],
            ));
        }
        assert(self@.deps.take(self@.deps.len() as int) =~= self@.deps);
        Unit {
            pkg: self.pkg.clone(),
            stem: self.stem.clone(),
            filename_hash: self.filename_hash.clone(),
            fp_hash: self.fp_hash,
            deps,
            invoked: self.invoked,
        }
    }
}

/// Un perfil compilado: el par `.fingerprint/` + `deps/` que viven juntos.
#[derive(Debug)]
pub struct Profile {
    /// Etiqueta legible, p.ej. `debug` o `x86_64-unknown-linux-musl/release`.
    pub label: String,
    /// El directorio del perfil: el padre de `.fingerprint/` y `deps/`.
    pub dir: Ruta,
    pub fingerprint_dir: Ruta,
    pub deps_dir: Ruta,
    pub units: Vec<Unit>,
}

/// Lo que un perfil dice, como valor matemático.
#[verifier::ext_equal]
pub struct PerfilVista {
    pub label: Seq<char>,
    pub dir: Seq<Seq<u8>>,
    pub fingerprint_dir: Seq<Seq<u8>>,
    pub deps_dir: Seq<Seq<u8>>,
    pub units: Seq<UnidadVista>,
}

/// Las vistas de unas unidades.
pub open spec fn unidades_vistas(units: Seq<Unit>) -> Seq<UnidadVista> {
    units.map_values(|u: Unit| u@)
}

impl View for Profile {
    type V = PerfilVista;

    open spec fn view(&self) -> PerfilVista {
        PerfilVista {
            label: self.label@,
            dir: self.dir@,
            fingerprint_dir: self.fingerprint_dir@,
            deps_dir: self.deps_dir@,
            units: unidades_vistas(self.units@),
        }
    }
}

/// ¿Referencia el hash de fingerprint a alguna unidad?
pub open spec fn resuelve(units: Seq<UnidadVista>, fp: u64) -> bool {
    exists|j: int| 0 <= j < units.len() && (#[trigger] units[j]).fp_hash == Some(fp)
}

/// Las posiciones, en orden, de las unidades con ese hash de fingerprint.
pub open spec fn posiciones(units: Seq<UnidadVista>, fp: u64) -> Seq<int>
    decreases units.len(),
{
    if units.len() == 0 {
        Seq::empty()
    } else if units.last().fp_hash == Some(fp) {
        posiciones(units.drop_last(), fp).push(units.len() - 1)
    } else {
        posiciones(units.drop_last(), fp)
    }
}

/// Unas posiciones, como enteros.
pub open spec fn enteros(v: Seq<usize>) -> Seq<int> {
    v.map_values(|i: usize| i as int)
}

/// ¿Lleva el índice de cada hash de fingerprint a las unidades que lo tienen?
pub open spec fn es_indice(indice: Map<u64, Vec<usize>>, units: Seq<UnidadVista>) -> bool {
    forall|fp: u64|
        #![trigger indice.contains_key(fp)]
        #![trigger indice[fp]]
        #![trigger posiciones(units, fp)]
        {
            &&& indice.contains_key(fp) <==> posiciones(units, fp).len() > 0
            &&& indice.contains_key(fp) ==> enteros(indice[fp]@) == posiciones(units, fp)
        }
}

/// Las posiciones son justo las de las unidades con ese hash, de menor a mayor.
pub proof fn lemma_posiciones(units: Seq<UnidadVista>, fp: u64)
    ensures
        forall|k: int|
            0 <= k < posiciones(units, fp).len() ==> 0 <= #[trigger] posiciones(units, fp)[k]
                < units.len() && units[posiciones(units, fp)[k]].fp_hash == Some(fp),
        forall|k: int, l: int|
            0 <= k < l < posiciones(units, fp).len() ==> posiciones(units, fp)[k] < posiciones(
                units,
                fp,
            )[l],
        forall|j: int|
            0 <= j < units.len() && (#[trigger] units[j]).fp_hash == Some(fp) ==> posiciones(
                units,
                fp,
            ).contains(j),
        (posiciones(units, fp).len() > 0) == resuelve(units, fp),
    decreases units.len(),
{
    if units.len() > 0 {
        let antes = units.drop_last();
        lemma_posiciones(antes, fp);
        let p = posiciones(units, fp);
        assert forall|j: int| 0 <= j < units.len() && (#[trigger] units[j]).fp_hash == Some(
            fp,
        ) implies p.contains(j) by {
            if j < units.len() - 1 {
                assert(antes[j] == units[j]);
                let k = choose|k: int|
                    0 <= k < posiciones(antes, fp).len() && posiciones(antes, fp)[k] == j;
                assert(p[k] == j);
            } else {
                assert(p[p.len() - 1] == j);
            }
        }
        if resuelve(units, fp) {
            let j = choose|j: int| 0 <= j < units.len() && (#[trigger] units[j]).fp_hash == Some(fp);
            assert(p.contains(j));
        }
        if p.len() > 0 {
            assert(units[p[0]].fp_hash == Some(fp));
        }
    }
}

/// Las vistas de unas referencias a unidades.
pub open spec fn vistas_de_referencias(units: Seq<&Unit>) -> Seq<UnidadVista> {
    units.map_values(|u: &Unit| u@)
}

/// Referencias a cada una de las unidades, en orden.
pub(crate) fn referencias(units: &Vec<Unit>) -> (r: Vec<&Unit>)
    ensures
        vistas_de_referencias(r@) == unidades_vistas(units@),
{
    let mut r: Vec<&Unit> = Vec::new();
    for i in 0..units.len()
        invariant
            vistas_de_referencias(r@) == unidades_vistas(units@).take(i as int),
    {
        let ghost antes = r@;
        r.push(&units[i]);
        assert(vistas_de_referencias(r@) =~= vistas_de_referencias(antes).push(units@[i as int]@));
        assert(unidades_vistas(units@).take(i + 1) =~= unidades_vistas(units@).take(i as int).push(
            units@[i as int]@,
        ));
    }
    assert(unidades_vistas(units@).take(units@.len() as int) =~= unidades_vistas(units@));
    r
}

/// Índice de `fp_hash -> unidades` sobre referencias.
pub(crate) fn indexar(units: &Vec<&Unit>) -> (map: HashMap<u64, Vec<usize>>)
    ensures
        es_indice(map@, vistas_de_referencias(units@)),
{
    let ghost vistas = vistas_de_referencias(units@);
    let mut map: HashMap<u64, Vec<usize>> = HashMap::new();
    for i in 0..units.len()
        invariant
            vistas == vistas_de_referencias(units@),
            es_indice(map@, vistas.take(i as int)),
    {
        let ghost antes = map@;
        let ghost hechas = vistas.take(i as int);
        assert(vistas.take(i + 1).drop_last() =~= hechas);
        assert(vistas.take(i + 1).last() == units@[i as int]@);
        if let Some(h) = units[i].fp_hash {
            let mut lista: Vec<usize> = match map.remove(&h) {
                Some(lista) => lista,
                None => Vec::new(),
            };
            let ghost previa = lista@;
            assert(enteros(previa) =~= posiciones(hechas, h)) by {
                assert(antes.contains_key(h) <==> posiciones(hechas, h).len() > 0);
            }
            lista.push(i);
            assert(enteros(lista@) =~= enteros(previa).push(i as int));
            map.insert(h, lista);
            assert forall|fp: u64|
                #![trigger map@.contains_key(fp)]
                #![trigger map@[fp]]
                #![trigger posiciones(vistas.take(i + 1), fp)] {
                &&& map@.contains_key(fp) <==> posiciones(vistas.take(i + 1), fp).len() > 0
                &&& map@.contains_key(fp) ==> enteros(map@[fp]@) == posiciones(
                    vistas.take(i + 1),
                    fp,
                )
            } by {
                if fp != h {
                    assert(map@.contains_key(fp) == antes.contains_key(fp));
                    assert(posiciones(vistas.take(i + 1), fp) == posiciones(hechas, fp));
                }
            }
        } else {
            assert forall|fp: u64|
                #![trigger map@.contains_key(fp)]
                #![trigger map@[fp]]
                #![trigger posiciones(vistas.take(i + 1), fp)] {
                &&& map@.contains_key(fp) <==> posiciones(vistas.take(i + 1), fp).len() > 0
                &&& map@.contains_key(fp) ==> enteros(map@[fp]@) == posiciones(
                    vistas.take(i + 1),
                    fp,
                )
            } by {
                assert(posiciones(vistas.take(i + 1), fp) == posiciones(hechas, fp));
            }
        }
    }
    assert(vistas.take(vistas.len() as int) =~= vistas);
    map
}

/// Índice de `fp_hash -> unidades`, para resolver las aristas del grafo.
pub fn index_by_fp_hash(units: &Vec<Unit>) -> (map: HashMap<u64, Vec<usize>>)
    ensures
        es_indice(map@, unidades_vistas(units@)),
{
    let refs = referencias(units);
    indexar(&refs)
}

/// El valor de un dígito hexadecimal.
pub open spec fn valor_hex(c: char) -> nat {
    if '0' <= c && c <= '9' {
        (c as u32 - 48) as nat
    } else if 'a' <= c && c <= 'f' {
        (c as u32 - 87) as nat
    } else {
        (c as u32 - 55) as nat
    }
}

/// El byte que escriben los dígitos hexadecimales `2 * i` y `2 * i + 1`.
pub open spec fn byte_hex(s: Seq<char>, i: int) -> nat {
    16 * valor_hex(s[2 * i]) + valor_hex(s[2 * i + 1])
}

/// El número cuyos bytes, del menos al más significativo, escribe `s` a partir
/// del byte `i`.
pub open spec fn little_endian(s: Seq<char>, i: int) -> nat
    decreases s.len() / 2 - i,
{
    if i >= s.len() / 2 {
        0
    } else {
        byte_hex(s, i) + 256 * little_endian(s, i + 1)
    }
}

/// ¿Son dieciséis dígitos hexadecimales?
pub open spec fn es_hash_de_cargo(s: Seq<char>) -> bool {
    s.len() == 16 && texto::todo_hex(s)
}

/// El hash de fingerprint que escribe un texto.
pub open spec fn hash_de_cargo(s: Seq<char>) -> Option<u64> {
    if es_hash_de_cargo(s) {
        Some(little_endian(s, 0) as u64)
    } else {
        None
    }
}

/// Un byte en hexadecimal no pasa de 255.
proof fn lemma_byte_hex(s: Seq<char>, i: int)
    requires
        texto::todo_hex(s),
        0 <= i,
        2 * i + 1 < s.len(),
    ensures
        byte_hex(s, i) <= 255,
{
    assert(texto::es_hex(s[2 * i]) && texto::es_hex(s[2 * i + 1]));
}

/// Ocho bytes caben en 64 bits.
proof fn lemma_little_endian_cabe(s: Seq<char>)
    requires
        es_hash_de_cargo(s),
    ensures
        forall|k: int| 0 <= k <= 8 ==> #[trigger] little_endian(s, k) <= u64::MAX,
{
    lemma_byte_hex(s, 0);
    lemma_byte_hex(s, 1);
    lemma_byte_hex(s, 2);
    lemma_byte_hex(s, 3);
    lemma_byte_hex(s, 4);
    lemma_byte_hex(s, 5);
    lemma_byte_hex(s, 6);
    lemma_byte_hex(s, 7);
    assert(little_endian(s, 8) == 0);
    assert(little_endian(s, 7) <= 0xff);
    assert(little_endian(s, 6) <= 0xffff);
    assert(little_endian(s, 5) <= 0xff_ffff);
    assert(little_endian(s, 4) <= 0xffff_ffff);
    assert(little_endian(s, 3) <= 0xff_ffff_ffff);
    assert(little_endian(s, 2) <= 0xffff_ffff_ffff);
    assert(little_endian(s, 1) <= 0xff_ffff_ffff_ffff);
    assert(little_endian(s, 0) <= 0xffff_ffff_ffff_ffff);
}

fn digito_hex(c: char) -> (r: u64)
    requires
        texto::es_hex(c),
    ensures
        r == valor_hex(c),
        r <= 15,
{
    if '0' <= c && c <= '9' {
        (c as u32 - 48) as u64
    } else if 'a' <= c && c <= 'f' {
        (c as u32 - 87) as u64
    } else {
        (c as u32 - 55) as u64
    }
}

/// Decodifica un hash de fingerprint tal como lo escribe Cargo.
///
/// Cargo serializa con `hex::encode(num.to_le_bytes())`, es decir **little-endian**.
/// Leerlo como un entero hexadecimal normal da un número distinto y ninguna
/// arista del grafo resuelve.
pub fn parse_cargo_hash(s: &str) -> (r: Option<u64>)
    ensures
        r == hash_de_cargo(s@),
        es_hash_de_cargo(s@) ==> little_endian(s@, 0) <= u64::MAX,
{
    let v = texto::caracteres(s);
    if v.len() != 16 || !texto::solo_hex(&v) {
        return None;
    }
    proof {
        lemma_little_endian_cabe(v@);
    }
    let mut valor: u64 = 0;
    let mut i: usize = 8;
    while i > 0
        invariant
            v@ == s@,
            es_hash_de_cargo(v@),
            i <= 8,
            valor == little_endian(v@, i as int),
            forall|k: int| 0 <= k <= i ==> #[trigger] little_endian(v@, k) <= u64::MAX,
        decreases i,
    {
        i -= 1;
        assert(texto::es_hex(v@[2 * i as int]) && texto::es_hex(v@[2 * i + 1]));
        let byte: u64 = 16 * digito_hex(v[2 * i]) + digito_hex(v[2 * i + 1]);
        assert(little_endian(v@, i as int) <= u64::MAX);
        valor = byte + 256 * valor;
    }
    Some(valor)
}

/// El dígito hexadecimal, en minúscula, de valor `d`.
pub open spec fn escrito_hex(d: nat) -> char {
    if d < 10 {
        (48 + d) as u8 as char
    } else {
        (87 + d) as u8 as char
    }
}

/// Los `k` bytes menos significativos de `n`, en hexadecimal y del menos al más
/// significativo: lo que escribe `hex::encode(n.to_le_bytes())`.
pub open spec fn bytes_hex(n: nat, k: nat) -> Seq<char>
    decreases k,
{
    if k == 0 {
        Seq::empty()
    } else {
        seq![escrito_hex(n % 256 / 16), escrito_hex(n % 16)] + bytes_hex(
            n / 256,
            (k - 1) as nat,
        )
    }
}

/// Lo que escriben los bytes de un número es ese número.
proof fn lemma_bytes_hex(n: nat, k: nat)
    ensures
        bytes_hex(n, k).len() == 2 * k,
        texto::todo_hex(bytes_hex(n, k)),
    decreases k,
{
    if k > 0 {
        lemma_bytes_hex(n / 256, (k - 1) as nat);
        let s = bytes_hex(n, k);
        assert forall|i: int| 0 <= i < s.len() implies texto::es_hex(#[trigger] s[i]) by {
            if i >= 2 {
                assert(s[i] == bytes_hex(n / 256, (k - 1) as nat)[i - 2]);
            }
        }
    }
}

/// Quitar el primer byte corre los demás un lugar.
proof fn lemma_little_endian_corrido(s: Seq<char>, i: int)
    requires
        s.len() >= 2,
        s.len() % 2 == 0,
        i >= 0,
    ensures
        little_endian(s, i + 1) == little_endian(s.skip(2), i),
    decreases s.len() / 2 - i,
{
    if i + 1 < s.len() / 2 {
        lemma_little_endian_corrido(s, i + 1);
        assert(s.skip(2)[2 * i] == s[2 * (i + 1)]);
        assert(s.skip(2)[2 * i + 1] == s[2 * (i + 1) + 1]);
    }
}

/// La mayor cantidad de valores que caben en `k` bytes.
spec fn valores(k: nat) -> nat
    decreases k,
{
    if k == 0 {
        1
    } else {
        256 * valores((k - 1) as nat)
    }
}

proof fn lemma_leer_bytes_hex(n: nat, k: nat)
    requires
        n < valores(k),
    ensures
        little_endian(bytes_hex(n, k), 0) == n,
    decreases k,
{
    lemma_bytes_hex(n, k);
    if k > 0 {
        let s = bytes_hex(n, k);
        let resto = bytes_hex(n / 256, (k - 1) as nat);
        assert(s.skip(2) =~= resto);
        assert(n / 256 < valores((k - 1) as nat));
        lemma_leer_bytes_hex(n / 256, (k - 1) as nat);
        lemma_little_endian_corrido(s, 0);
        assert(byte_hex(s, 0) == n % 256);
    }
}

/// Leer lo que Cargo escribió para un hash devuelve ese hash.
pub proof fn ley_hash_de_cargo_ida_y_vuelta(n: u64)
    ensures
        hash_de_cargo(bytes_hex(n as nat, 8)) == Some(n),
{
    lemma_bytes_hex(n as nat, 8);
    reveal_with_fuel(valores, 9);
    lemma_leer_bytes_hex(n as nat, 8);
}

/// ¿Tiene la forma de un sufijo de hash: ocho o más dígitos hexadecimales?
pub open spec fn es_hash(s: Seq<char>) -> bool {
    s.len() >= 8 && texto::todo_hex(s)
}

/// ¿Parece un sufijo de hash de Cargo? (hex, 8 caracteres o más)
pub fn is_hash(s: &str) -> (r: bool)
    ensures
        r == es_hash(s@),
{
    let v = texto::caracteres(s);
    v.len() >= 8 && texto::solo_hex(&v)
}

/// El paquete y el hash de un nombre `<paquete>-<hash>`.
pub open spec fn paquete_y_hash(nombre: Seq<char>) -> Option<(Seq<char>, Seq<char>)> {
    match texto::partir_por_ultimo(nombre, '-') {
        Some((paquete, hash)) => if es_hash(hash) {
            Some((paquete, hash))
        } else {
            None
        },
        None => None,
    }
}

/// Separa el nombre de un directorio `<paquete>-<hash>`.
///
/// El hash es el último segmento tras `-`; el resto es el nombre del paquete.
pub fn separar_hash(nombre: &str) -> (r: Option<(String, String)>)
    ensures
        match r {
            Some((paquete, hash)) => paquete_y_hash(nombre@) == Some((paquete@, hash@)),
            None => paquete_y_hash(nombre@) is None,
        },
{
    match texto::partir_ultimo(nombre, '-') {
        Some((paquete, hash)) => if is_hash(hash.as_str()) {
            Some((paquete, hash))
        } else {
            None
        },
        None => None,
    }
}

/// Los tipos de unidad que Cargo conoce, de los más largos a los más cortos.
pub open spec fn tipos() -> Seq<Seq<char>> {
    seq![
        "run-build-script-build-script-build"@,
        "run-build-script-build-script-main"@,
        "build-script-build-script-build"@,
        "build-script-build-script-main"@,
        "run-build-script"@,
        "build-script-build"@,
        "build-script-main"@,
        "test-build-script-build"@,
        "test-lib"@,
        "test-bin"@,
        "bench-lib"@,
        "bench-bin"@,
        "doc-lib"@,
        "lib"@,
        "bin"@,
        "test"@,
        "bench"@,
        "example"@,
        "custom-build"@,
    ]
}

/// ¿Es el nombre el de un tipo, solo o seguido de un guion?
pub open spec fn es_de_tipo(nombre: Seq<char>, tipo: Seq<char>) -> bool {
    nombre == tipo || texto::empieza_por(nombre, tipo.push('-'))
}

/// El primero de los tipos, a partir del `k`, al que corresponde el nombre.
pub open spec fn tipo_desde(nombre: Seq<char>, k: int) -> Option<Seq<char>>
    decreases tipos().len() - k,
{
    if k >= tipos().len() {
        None
    } else if es_de_tipo(nombre, tipos()[k]) {
        Some(tipos()[k])
    } else {
        tipo_desde(nombre, k + 1)
    }
}

/// El tipo y el crate de un nombre de unidad: el primer tipo conocido que le
/// corresponda y lo que sigue al guion, o si no hay ninguno lo que hay a cada
/// lado del primer guion.
pub open spec fn tipo_y_crate(nombre: Seq<char>) -> (Seq<char>, Seq<char>) {
    match tipo_desde(nombre, 0) {
        Some(tipo) => (
            tipo,
            if nombre == tipo {
                Seq::empty()
            } else {
                nombre.skip(tipo.len() as int + 1)
            },
        ),
        None => match texto::partir_por_primero(nombre, '-') {
            Some(partes) => partes,
            None => (nombre, Seq::empty()),
        },
    }
}

/// Separa `lib-sqlparser` en `("lib", "sqlparser")`.
///
/// Los prefijos de tipo son un conjunto cerrado que Cargo conoce; el resto del
/// nombre es el crate, que puede contener guiones.
pub fn split_kind(file_name: &str) -> (r: (String, String))
    ensures
        (r.0@, r.1@) == tipo_y_crate(file_name@),
{
    let kinds: [&'static str; 19] = [
        "run-build-script-build-script-build",
        "run-build-script-build-script-main",
        "build-script-build-script-build",
        "build-script-build-script-main",
        "run-build-script",
        "build-script-build",
        "build-script-main",
        "test-build-script-build",
        "test-lib",
        "test-bin",
        "bench-lib",
        "bench-bin",
        "doc-lib",
        "lib",
        "bin",
        "test",
        "bench",
        "example",
        "custom-build",
    ];
    assert forall|j: int| 0 <= j < 19 implies (#[trigger] kinds@[j])@ == tipos()[j] by {}
    for k in 0..19
        invariant
            forall|j: int| 0 <= j < 19 ==> (#[trigger] kinds@[j])@ == tipos()[j],
            tipo_desde(file_name@, 0) == tipo_desde(file_name@, k as int),
    {
        let kind = kinds[k];
        assert(kind@ == tipos()[k as int]);
        if texto::iguales(file_name, kind) {
            return (kind.to_owned(), String::new());
        }
        let mut con_guion: String = kind.to_owned();
        con_guion.push('-');
        if texto::tiene_prefijo(file_name, con_guion.as_str()) {
            let n: usize = con_guion.as_str().unicode_len();
            let resto = file_name.substring_char(n, file_name.unicode_len());
            assert(resto@ =~= file_name@.skip(kind@.len() as int + 1));
            return (kind.to_owned(), resto.to_owned());
        }
    }
    match texto::partir_primero(file_name, '-') {
        Some((k, n)) => (k, n),
        None => (file_name.to_owned(), String::new()),
    }
}

/// Separar el tipo del crate no pierde nada: el nombre es el tipo solo, o el tipo,
/// un guion y el crate.
pub proof fn ley_tipo_y_crate_completos(nombre: Seq<char>)
    ensures
        ({
            let (tipo, resto) = tipo_y_crate(nombre);
            nombre == tipo && resto.len() == 0 || nombre == tipo.push('-') + resto
        }),
{
    lemma_tipo_desde(nombre, 0);
    let (tipo, resto) = tipo_y_crate(nombre);
    if tipo_desde(nombre, 0) is Some {
        if nombre != tipo {
            let n = tipo.len() as int + 1;
            assert(nombre =~= nombre.take(n) + nombre.skip(n));
        }
    } else {
        texto::lemma_primera_posicion(nombre, '-');
        if let Some(i) = texto::primera_posicion(nombre, '-') {
            assert(nombre =~= nombre.take(i).push('-') + nombre.skip(i + 1));
        }
    }
}

proof fn lemma_tipo_desde(nombre: Seq<char>, k: int)
    requires
        0 <= k,
    ensures
        tipo_desde(nombre, k) is Some ==> es_de_tipo(nombre, tipo_desde(nombre, k)->0),
    decreases tipos().len() - k,
{
    if k < tipos().len() && !es_de_tipo(nombre, tipos()[k]) {
        lemma_tipo_desde(nombre, k + 1);
    }
}

/// Un elemento de una fila de `deps` en el JSON de fingerprint.
pub enum Celda {
    Texto(String),
    Natural(u64),
    Otra,
}

/// Lo que dice una celda, como valor matemático.
pub enum CeldaVista {
    Texto(Seq<char>),
    Natural(u64),
    Otra,
}

impl View for Celda {
    type V = CeldaVista;

    open spec fn view(&self) -> CeldaVista {
        match self {
            Celda::Texto(t) => CeldaVista::Texto(t@),
            Celda::Natural(n) => CeldaVista::Natural(*n),
            Celda::Otra => CeldaVista::Otra,
        }
    }
}

/// El primer texto de una fila; vacío si no hay ninguno.
pub open spec fn primer_texto(fila: Seq<CeldaVista>) -> Seq<char>
    decreases fila.len(),
{
    if fila.len() == 0 {
        Seq::empty()
    } else {
        match fila.first() {
            CeldaVista::Texto(t) => t,
            _ => primer_texto(fila.drop_first()),
        }
    }
}

/// El último número de una fila.
pub open spec fn ultimo_natural(fila: Seq<CeldaVista>) -> Option<u64>
    decreases fila.len(),
{
    if fila.len() == 0 {
        None
    } else {
        match fila.last() {
            CeldaVista::Natural(n) => Some(n),
            _ => ultimo_natural(fila.drop_last()),
        }
    }
}

/// La arista que escribe una fila: el primer texto y el último número.
pub open spec fn arista_de(fila: Option<Seq<CeldaVista>>) -> Option<(Seq<char>, u64)> {
    match fila {
        Some(celdas) => match ultimo_natural(celdas) {
            Some(fp) => Some((primer_texto(celdas), fp)),
            None => None,
        },
        None => None,
    }
}

/// Las aristas que escriben unas filas, en orden.
pub open spec fn aristas_de(filas: Seq<Option<Seq<CeldaVista>>>) -> Seq<(Seq<char>, u64)> {
    filas.filter_map(|fila: Option<Seq<CeldaVista>>| arista_de(fila))
}

/// Las vistas de unas celdas.
pub open spec fn celdas_vistas(celdas: Seq<Celda>) -> Seq<CeldaVista> {
    celdas.map_values(|c: Celda| c@)
}

/// La vista de una fila.
pub open spec fn fila_vista(fila: Option<Vec<Celda>>) -> Option<Seq<CeldaVista>> {
    match fila {
        Some(celdas) => Some(celdas_vistas(celdas@)),
        None => None,
    }
}

/// Las vistas de unas filas.
pub open spec fn filas_vistas(filas: Seq<Option<Vec<Celda>>>) -> Seq<Option<Seq<CeldaVista>>> {
    filas.map_values(|f: Option<Vec<Celda>>| fila_vista(f))
}

/// La celda que hay en un valor JSON.
pub open spec fn celda_de(arbol: ArbolJson) -> CeldaVista {
    match arbol {
        ArbolJson::Texto(t) => CeldaVista::Texto(t),
        ArbolJson::Natural(n) => CeldaVista::Natural(n),
        _ => CeldaVista::Otra,
    }
}

/// La fila que hay en un valor JSON; nada si no es una lista.
pub open spec fn fila_de(arbol: ArbolJson) -> Option<Seq<CeldaVista>> {
    match arbol {
        ArbolJson::Lista(l) => Some(l.map_values(|a: ArbolJson| celda_de(a))),
        _ => None,
    }
}

/// Las filas de `deps` de un JSON de fingerprint.
pub open spec fn filas_de(arbol: ArbolJson) -> Seq<Option<Seq<CeldaVista>>> {
    json::campo_de_lista(arbol, "deps"@).map_values(|a: ArbolJson| fila_de(a))
}

fn primero_de_texto(fila: &Vec<Celda>) -> (r: String)
    ensures
        r@ == primer_texto(celdas_vistas(fila@)),
{
    let ghost vistas = celdas_vistas(fila@);
    assert(vistas.skip(0) =~= vistas);
    for i in 0..fila.len()
        invariant
            vistas == celdas_vistas(fila@),
            primer_texto(vistas) == primer_texto(vistas.skip(i as int)),
    {
        assert(vistas.skip(i as int).first() == fila@[i as int]@);
        if let Celda::Texto(t) = &fila[i] {
            return t.clone();
        }
        assert(vistas.skip(i as int).drop_first() =~= vistas.skip(i + 1));
    }
    String::new()
}

fn ultimo_de_natural(fila: &Vec<Celda>) -> (r: Option<u64>)
    ensures
        r == ultimo_natural(celdas_vistas(fila@)),
{
    let ghost vistas = celdas_vistas(fila@);
    let mut i: usize = fila.len();
    assert(vistas.take(i as int) =~= vistas);
    while i > 0
        invariant
            i <= fila@.len(),
            vistas == celdas_vistas(fila@),
            ultimo_natural(vistas) == ultimo_natural(vistas.take(i as int)),
        decreases i,
    {
        assert(vistas.take(i as int).last() == fila@[i - 1]@);
        if let Celda::Natural(n) = &fila[i - 1] {
            return Some(*n);
        }
        assert(vistas.take(i as int).drop_last() =~= vistas.take(i - 1));
        i -= 1;
    }
    None
}

/// Saca las aristas de las filas de `deps`.
///
/// Cada fila es una tupla heterogénea; según la versión de Cargo puede ser
/// `[pkg_hash, nombre, public, fp_hash]` o `[pkg_hash, nombre, fp_hash]`.
/// Se toman el nombre y el **último** número, que siempre es el fingerprint.
pub fn aristas(filas: &Vec<Option<Vec<Celda>>>) -> (r: Vec<(String, u64)>)
    ensures
        aristas_vistas(r@) == aristas_de(filas_vistas(filas@)),
{
    let ghost vistas = filas_vistas(filas@);
    let mut deps: Vec<(String, u64)> = Vec::new();
    for i in 0..filas.len()
        invariant
            vistas == filas_vistas(filas@),
            aristas_vistas(deps@) == aristas_de(vistas.take(i as int)),
    {
        let ghost antes = deps@;
        assert(vistas.take(i + 1).drop_last() =~= vistas.take(i as int));
        assert(vistas.take(i + 1).last() == fila_vista(filas@[i as int]));
        if let Some(fila) = &filas[i] {
            let nombre = primero_de_texto(fila);
            if let Some(fp) = ultimo_de_natural(fila) {
                deps.push((nombre, fp));
                assert(aristas_vistas(deps@) =~= aristas_vistas(antes) + seq![(nombre@, fp)]);
            }
        }
    }
    assert(vistas.take(vistas.len() as int) =~= vistas);
    deps
}

fn celda(valor: &serde_json::Value) -> (r: Celda)
    ensures
        r@ == celda_de(json::contenido(*valor)),
{
    match valor.as_str() {
        Some(t) => Celda::Texto(t.to_owned()),
        None => match valor.as_u64() {
            Some(n) => Celda::Natural(n),
            None => Celda::Otra,
        },
    }
}

fn fila(valor: &serde_json::Value) -> (r: Option<Vec<Celda>>)
    ensures
        fila_vista(r) == fila_de(json::contenido(*valor)),
{
    match valor.as_array() {
        Some(lista) => {
            let ghost esperadas = json::contenidos(lista@).map_values(|a: ArbolJson| celda_de(a));
            let mut celdas: Vec<Celda> = Vec::new();
            for i in 0..lista.len()
                invariant
                    esperadas == json::contenidos(lista@).map_values(|a: ArbolJson| celda_de(a)),
                    celdas_vistas(celdas@) == esperadas.take(i as int),
            {
                let ghost antes = celdas@;
                celdas.push(celda(&lista[i]));
                assert(celdas_vistas(celdas@) =~= celdas_vistas(antes).push(esperadas[i as int]));
                assert(esperadas.take(i + 1) =~= esperadas.take(i as int).push(esperadas[i as int]));
            }
            assert(esperadas.take(esperadas.len() as int) =~= esperadas);
            Some(celdas)
        },
        None => None,
    }
}

/// Extrae las aristas `deps` del JSON de fingerprint.
pub fn read_deps(raw: &str) -> (r: Result<Vec<(String, u64)>, JsonInvalido>)
    ensures
        match r {
            Ok(deps) => json::leido_de_texto(raw@) is Some && aristas_vistas(deps@) == aristas_de(
                filas_de(json::leido_de_texto(raw@)->0),
            ),
            Err(_) => json::leido_de_texto(raw@) is None,
        },
{
    let valor = match json::leer_texto(raw) {
        Ok(valor) => valor,
        Err(causa) => {
            return Err(JsonInvalido { causa });
        },
    };
    let ghost arbol = json::contenido(valor);
    let ghost esperadas = filas_de(arbol);
    let mut filas: Vec<Option<Vec<Celda>>> = Vec::new();
    if let Some(lista) = json::obtener_lista(&valor, "deps") {
        for i in 0..lista.len()
            invariant
                arbol == json::contenido(valor),
                esperadas == filas_de(arbol),
                json::contenidos(lista@) == json::campo_de_lista(arbol, "deps"@),
                filas_vistas(filas@) == esperadas.take(i as int),
        {
            let ghost antes = filas@;
            assert(json::contenidos(lista@)[i as int] == json::contenido(lista@[i as int]));
            filas.push(fila(&lista[i]));
            assert(filas_vistas(filas@) =~= filas_vistas(antes).push(esperadas[i as int]));
            assert(esperadas.take(i + 1) =~= esperadas.take(i as int).push(esperadas[i as int]));
        }
        assert(esperadas.take(esperadas.len() as int) =~= esperadas);
    }
    assert(filas_vistas(filas@) =~= esperadas);
    Ok(aristas(&filas))
}

/// Un archivo de `.fingerprint/<paquete>-<hash>/`, tal como se leyó.
pub struct ArchivoDeUnidad {
    pub nombre: Vec<u8>,
    /// Hay un archivo con el mismo nombre y `.json` detrás.
    pub tiene_json: bool,
    /// El texto del archivo, si se pudo leer.
    pub huella: Option<String>,
    /// El texto de su `.json`, si se pudo leer.
    pub json: Option<String>,
}

/// Un elemento de `.fingerprint/`, tal como se leyó.
pub struct DirDeUnidad {
    pub nombre: Vec<u8>,
    pub es_dir: bool,
    /// mtime de `invoked.timestamp`, si se pudo leer.
    pub invoked: Option<Instante>,
    pub archivos: Vec<ArchivoDeUnidad>,
}

/// Lo que se leyó de un archivo, como valor matemático.
#[verifier::ext_equal]
pub struct ArchivoVisto {
    pub nombre: Seq<u8>,
    pub tiene_json: bool,
    pub huella: Option<Seq<char>>,
    pub json: Option<Seq<char>>,
}

/// Lo que se leyó de un elemento de `.fingerprint/`, como valor matemático.
#[verifier::ext_equal]
pub struct DirVisto {
    pub nombre: Seq<u8>,
    pub es_dir: bool,
    pub invoked: Option<Instante>,
    pub archivos: Seq<ArchivoVisto>,
}

/// La vista de un texto que puede faltar.
pub open spec fn texto_visto(t: Option<String>) -> Option<Seq<char>> {
    match t {
        Some(s) => Some(s@),
        None => None,
    }
}

impl View for ArchivoDeUnidad {
    type V = ArchivoVisto;

    open spec fn view(&self) -> ArchivoVisto {
        ArchivoVisto {
            nombre: self.nombre@,
            tiene_json: self.tiene_json,
            huella: texto_visto(self.huella),
            json: texto_visto(self.json),
        }
    }
}

impl View for DirDeUnidad {
    type V = DirVisto;

    open spec fn view(&self) -> DirVisto {
        DirVisto {
            nombre: self.nombre@,
            es_dir: self.es_dir,
            invoked: self.invoked,
            archivos: self.archivos@.map_values(|a: ArchivoDeUnidad| a@),
        }
    }
}

/// Las vistas de unos elementos de `.fingerprint/`.
pub open spec fn dirs_vistos(dirs: Seq<DirDeUnidad>) -> Seq<DirVisto> {
    dirs.map_values(|d: DirDeUnidad| d@)
}

/// ¿Puede ser el nombre del archivo que identifica una unidad?
pub open spec fn puede_identificar(nombre: Seq<char>) -> bool {
    !(nombre == "invoked.timestamp"@ || texto::termina_en(nombre, ".json"@) || texto::empieza_por(
        nombre,
        "dep-"@,
    ) || texto::empieza_por(nombre, "output-"@))
}

/// ¿Puede ser el nombre del archivo que identifica una unidad?
///
/// Cada unidad se identifica por un par `<kind>-<crate>` + su `.json`; los demás
/// archivos del directorio no.
pub fn identifica_unidad(nombre: &str) -> (r: bool)
    ensures
        r == puede_identificar(nombre@),
{
    !(texto::iguales(nombre, "invoked.timestamp") || texto::tiene_sufijo(nombre, ".json")
        || texto::tiene_prefijo(nombre, "dep-") || texto::tiene_prefijo(nombre, "output-"))
}

/// Las aristas que escribe el texto de un `.json`; ninguna si no se leyó o no es
/// JSON.
pub open spec fn aristas_del_json(json: Option<Seq<char>>) -> Seq<(Seq<char>, u64)> {
    match json {
        Some(t) => match json::leido_de_texto(t) {
            Some(arbol) => aristas_de(filas_de(arbol)),
            None => Seq::empty(),
        },
        None => Seq::empty(),
    }
}

/// La unidad que identifica un archivo del directorio `<pkg>-<hash>/`.
pub open spec fn unidad_del_archivo(
    pkg: Seq<char>,
    hash: Seq<char>,
    invoked: Option<Instante>,
    archivo: ArchivoVisto,
) -> Option<UnidadVista> {
    match texto::texto_de_bytes(archivo.nombre) {
        Some(nombre) => if puede_identificar(nombre) && archivo.tiene_json {
            Some(
                UnidadVista {
                    pkg,
                    stem: nombre,
                    filename_hash: hash,
                    fp_hash: match archivo.huella {
                        Some(t) => hash_de_cargo(texto::recortado(t)),
                        None => None,
                    },
                    deps: aristas_del_json(archivo.json),
                    invoked,
                },
            )
        } else {
            None
        },
        None => None,
    }
}

/// Las unidades que identifican unos archivos del directorio `<pkg>-<hash>/`.
pub open spec fn unidades_de_archivos(
    pkg: Seq<char>,
    hash: Seq<char>,
    invoked: Option<Instante>,
    archivos: Seq<ArchivoVisto>,
) -> Seq<UnidadVista> {
    archivos.filter_map(|a: ArchivoVisto| unidad_del_archivo(pkg, hash, invoked, a))
}

/// El paquete y el hash de un elemento de `.fingerprint/`, si es el directorio de
/// una unidad.
pub open spec fn dir_de_unidad(dir: DirVisto) -> Option<(Seq<char>, Seq<char>)> {
    match texto::texto_de_bytes(dir.nombre) {
        Some(nombre) => if dir.es_dir {
            paquete_y_hash(nombre)
        } else {
            None
        },
        None => None,
    }
}

/// Las unidades de un elemento de `.fingerprint/`.
pub open spec fn unidades_del_dir(dir: DirVisto) -> Seq<UnidadVista> {
    match dir_de_unidad(dir) {
        Some((pkg, hash)) => unidades_de_archivos(pkg, hash, dir.invoked, dir.archivos),
        None => Seq::empty(),
    }
}

/// Las unidades de los elementos de `.fingerprint/`, en orden.
pub open spec fn unidades_leidas(dirs: Seq<DirVisto>) -> Seq<UnidadVista>
    decreases dirs.len(),
{
    if dirs.len() == 0 {
        Seq::empty()
    } else {
        unidades_leidas(dirs.drop_last()) + unidades_del_dir(dirs.last())
    }
}

/// La unidad que identifica un archivo del directorio `<pkg>-<hash>/`.
fn leer_unidad(
    pkg: &String,
    hash: &String,
    invoked: Option<Instante>,
    archivo: &ArchivoDeUnidad,
) -> (r: Option<Unit>)
    ensures
        match r {
            Some(u) => unidad_del_archivo(pkg@, hash@, invoked, archivo@) == Some(u@),
            None => unidad_del_archivo(pkg@, hash@, invoked, archivo@) is None,
        },
{
    let nombre = match texto::desde_utf8(&archivo.nombre) {
        Some(nombre) => nombre,
        None => {
            return None;
        },
    };
    if !identifica_unidad(nombre) || !archivo.tiene_json {
        return None;
    }
    let fp_hash: Option<u64> = match &archivo.huella {
        Some(t) => parse_cargo_hash(texto::recortar(t.as_str()).as_str()),
        None => None,
    };
    let deps: Vec<(String, u64)> = match &archivo.json {
        Some(t) => match read_deps(t.as_str()) {
            Ok(deps) => deps,
            Err(_) => Vec::new(),
        },
        None => Vec::new(),
    };
    assert(aristas_vistas(deps@) =~= aristas_del_json(archivo@.json));
    Some(
        Unit {
            pkg: pkg.clone(),
            stem: nombre.to_owned(),
            filename_hash: hash.clone(),
            fp_hash,
            deps,
            invoked,
        },
    )
}

/// Lee las unidades de un elemento de `.fingerprint/`.
fn leer_dir(dir: &DirDeUnidad, units: &mut Vec<Unit>)
    ensures
        unidades_vistas(final(units)@) == unidades_vistas(old(units)@) + unidades_del_dir(dir@),
{
    let ghost previas = unidades_vistas(units@);
    assert(previas + Seq::<UnidadVista>::empty() =~= previas);
    if !dir.es_dir {
        return ;
    }
    let nombre = match texto::desde_utf8(&dir.nombre) {
        Some(nombre) => nombre,
        None => {
            return ;
        },
    };
    let (pkg, hash) = match separar_hash(nombre) {
        Some(partes) => partes,
        None => {
            return ;
        },
    };
    let ghost archivos = dir@.archivos;
    for k in 0..dir.archivos.len()
        invariant
            archivos == dir@.archivos,
            unidades_vistas(units@) == previas + unidades_de_archivos(
                pkg@,
                hash@,
                dir.invoked,
                archivos.take(k as int),
            ),
    {
        let ghost antes = units@;
        assert(archivos.take(k + 1).drop_last() =~= archivos.take(k as int));
        assert(archivos.take(k + 1).last() == dir.archivos@[k as int]@);
        let ghost hechas = unidades_de_archivos(pkg@, hash@, dir.invoked, archivos.take(k as int));
        if let Some(u) = leer_unidad(&pkg, &hash, dir.invoked, &dir.archivos[k]) {
            let ghost vista = u@;
            units.push(u);
            assert(unidades_vistas(units@) =~= unidades_vistas(antes).push(vista));
            assert(previas + (hechas + seq![vista]) =~= (previas + hechas).push(vista));
        }
    }
    assert(archivos.take(archivos.len() as int) =~= archivos);
}

/// Lee todas las unidades de un directorio `.fingerprint/`.
pub fn read_units(dirs: &Vec<DirDeUnidad>) -> (units: Vec<Unit>)
    ensures
        unidades_vistas(units@) == unidades_leidas(dirs_vistos(dirs@)),
{
    let ghost vistos = dirs_vistos(dirs@);
    let mut units: Vec<Unit> = Vec::new();
    for i in 0..dirs.len()
        invariant
            vistos == dirs_vistos(dirs@),
            unidades_vistas(units@) == unidades_leidas(vistos.take(i as int)),
    {
        assert(vistos.take(i + 1).drop_last() =~= vistos.take(i as int));
        assert(vistos.take(i + 1).last() == dirs@[i as int]@);
        leer_dir(&dirs[i], &mut units);
    }
    assert(vistos.take(vistos.len() as int) =~= vistos);
    units
}

/// El índice lleva de cada hash de fingerprint a las unidades que lo tienen, a todas
/// y sólo a ellas, por orden y una vez cada una.
pub proof fn ley_el_indice_lleva_a_las_unidades(
    indice: Map<u64, Vec<usize>>,
    units: Seq<UnidadVista>,
    fp: u64,
    j: usize,
)
    requires
        es_indice(indice, units),
    ensures
        indice.contains_key(fp) && indice[fp]@.contains(j) <==> j < units.len() && units[j as int].fp_hash
            == Some(fp),
        indice.contains_key(fp) ==> indice[fp]@.len() > 0,
        indice.contains_key(fp) ==> forall|a: int, b: int|
            0 <= a < b < indice[fp]@.len() ==> indice[fp]@[a] < indice[fp]@[b],
{
    lemma_posiciones(units, fp);
    assert(indice.contains_key(fp) <==> posiciones(units, fp).len() > 0);
    let p = posiciones(units, fp);
    if indice.contains_key(fp) {
        let v = indice[fp]@;
        assert(enteros(v) == p);
        assert forall|a: int, b: int| 0 <= a < b < v.len() implies v[a] < v[b] by {
            assert(enteros(v)[a] == v[a] && enteros(v)[b] == v[b]);
        }
        if v.contains(j) {
            let k = choose|k: int| 0 <= k < v.len() && v[k] == j;
            assert(enteros(v)[k] == j);
        }
    }
    if j < units.len() && units[j as int].fp_hash == Some(fp) {
        assert(p.contains(j as int));
        let k = choose|k: int| 0 <= k < p.len() && p[k] == j;
        assert(enteros(indice[fp]@)[k] == j);
        assert(indice[fp]@[k] == j);
    }
}

/// Lo que vale una cifra hexadecimal, en minúscula o en mayúscula.
proof fn lemma_valor_hex(c: char, d: int)
    requires
        0 <= d < 16,
        c == "0123456789abcdef"@[d] || c == "0123456789ABCDEF"@[d],
    ensures
        texto::es_hex(c),
        valor_hex(c) == d,
{
    reveal_strlit("0123456789abcdef");
    reveal_strlit("0123456789ABCDEF");
    if d == 0 {
    } else if d == 1 {
    } else if d == 2 {
    } else if d == 3 {
    } else if d == 4 {
    } else if d == 5 {
    } else if d == 6 {
    } else if d == 7 {
    } else if d == 8 {
    } else if d == 9 {
    } else if d == 10 {
    } else if d == 11 {
    } else if d == 12 {
    } else if d == 13 {
    } else if d == 14 {
    } else {
        assert(d == 15);
    }
}

/// Un hash de Cargo son dieciséis cifras hexadecimales, de dos en dos y con el byte
/// menos significativo delante; da igual si van en mayúscula o en minúscula.
pub proof fn ley_el_hash_es_little_endian(s: Seq<char>, d: Seq<int>)
    requires
        s.len() == 16,
        d.len() == 16,
        forall|k: int|
            0 <= k < 16 ==> 0 <= #[trigger] d[k] < 16 && (s[k] == "0123456789abcdef"@[d[k]] || s[k]
                == "0123456789ABCDEF"@[d[k]]),
    ensures
        ({
            let n = (16 * d[0] + d[1]) + 0x100 * (16 * d[2] + d[3]) + 0x1_0000 * (16 * d[4] + d[5])
                + 0x100_0000 * (16 * d[6] + d[7]) + 0x1_0000_0000 * (16 * d[8] + d[9])
                + 0x100_0000_0000 * (16 * d[10] + d[11]) + 0x1_0000_0000_0000 * (16 * d[12]
                + d[13]) + 0x100_0000_0000_0000 * (16 * d[14] + d[15]);
            &&& hash_de_cargo(s) is Some
            &&& hash_de_cargo(s)->0 == n
        }),
{
    assert forall|k: int| 0 <= k < 16 implies texto::es_hex(#[trigger] s[k]) && valor_hex(s[k])
        == d[k] by {
        lemma_valor_hex(s[k], d[k]);
    }
    lemma_little_endian_cabe(s);
    assert(little_endian(s, 8) == 0);
    assert(little_endian(s, 7) == 16 * d[14] + d[15]);
    assert(little_endian(s, 6) == 16 * d[12] + d[13] + 0x100 * little_endian(s, 7));
    assert(little_endian(s, 5) == 16 * d[10] + d[11] + 0x100 * little_endian(s, 6));
    assert(little_endian(s, 4) == 16 * d[8] + d[9] + 0x100 * little_endian(s, 5));
    assert(little_endian(s, 3) == 16 * d[6] + d[7] + 0x100 * little_endian(s, 4));
    assert(little_endian(s, 2) == 16 * d[4] + d[5] + 0x100 * little_endian(s, 3));
    assert(little_endian(s, 1) == 16 * d[2] + d[3] + 0x100 * little_endian(s, 2));
    assert(little_endian(s, 0) == 16 * d[0] + d[1] + 0x100 * little_endian(s, 1));
}

/// Lo que no son dieciséis cifras hexadecimales no es un hash de Cargo.
pub proof fn ley_que_es_un_hash_de_cargo(s: Seq<char>)
    ensures
        hash_de_cargo(s) is Some <==> s.len() == 16 && texto::todo_hex(s),
{
}

/// Un sufijo de hash son ocho o más cifras hexadecimales.
pub proof fn ley_que_es_un_hash(s: Seq<char>)
    ensures
        es_hash(s) <==> s.len() >= 8 && texto::todo_hex(s),
{
}

/// En una cifra hexadecimal no hay guiones ni puntos.
pub proof fn lemma_un_hash_no_tiene_guiones(h: Seq<char>)
    requires
        texto::todo_hex(h),
    ensures
        !h.contains('-'),
        !h.contains('.'),
{
    if h.contains('-') {
        let k = choose|k: int| 0 <= k < h.len() && h[k] == '-';
        assert(texto::es_hex(h[k]));
    }
    if h.contains('.') {
        let k = choose|k: int| 0 <= k < h.len() && h[k] == '.';
        assert(texto::es_hex(h[k]));
    }
}

/// Un nombre se separa en paquete y hash justo cuando es el paquete, un guion y el
/// hash, tenga el paquete los caracteres que tenga.
pub proof fn ley_paquete_guion_hash(paquete: Seq<char>, hash: Seq<char>, nombre: Seq<char>)
    ensures
        es_hash(hash) ==> paquete_y_hash(paquete.push('-') + hash) == Some((paquete, hash)),
        paquete_y_hash(nombre) == Some((paquete, hash)) ==> es_hash(hash) && nombre == paquete.push(
            '-',
        ) + hash,
{
    if es_hash(hash) {
        lemma_un_hash_no_tiene_guiones(hash);
        texto::ley_partir_deshace_unir(paquete, hash, '-');
    }
    if paquete_y_hash(nombre) == Some((paquete, hash)) {
        texto::lemma_ultima_posicion(nombre, '-');
        let i = texto::ultima_posicion(nombre, '-')->0;
        assert(nombre =~= nombre.take(i).push('-') + nombre.skip(i + 1));
    }
}

/// Los tipos de unidad que Cargo conoce: un nombre que es uno de ellos, o empieza por
/// uno de ellos y un guion, es de ese tipo; si puede ser de varios, del que va antes
/// en la lista. Si no es de ninguno, el tipo llega hasta el primer guion.
pub proof fn ley_los_tipos_de_unidad(nombre: Seq<char>, i: int)
    ensures
        ({
            let kinds = seq![
                "run-build-script-build-script-build"@,
                "run-build-script-build-script-main"@,
                "build-script-build-script-build"@,
                "build-script-build-script-main"@,
                "run-build-script"@,
                "build-script-build"@,
                "build-script-main"@,
                "test-build-script-build"@,
                "test-lib"@,
                "test-bin"@,
                "bench-lib"@,
                "bench-bin"@,
                "doc-lib"@,
                "lib"@,
                "bin"@,
                "test"@,
                "bench"@,
                "example"@,
                "custom-build"@,
            ];
            &&& 0 <= i < kinds.len() && (nombre == kinds[i] || texto::empieza_por(
                nombre,
                kinds[i].push('-'),
            )) && (forall|j: int|
                0 <= j < i ==> nombre != #[trigger] kinds[j] && !texto::empieza_por(
                    nombre,
                    kinds[j].push('-'),
                )) ==> tipo_y_crate(nombre).0 == kinds[i] && tipo_y_crate(nombre).1 == if nombre
                == kinds[i] {
                Seq::empty()
            } else {
                nombre.skip(kinds[i].len() as int + 1)
            }
            &&& (forall|j: int|
                0 <= j < kinds.len() ==> nombre != #[trigger] kinds[j] && !texto::empieza_por(
                    nombre,
                    kinds[j].push('-'),
                )) ==> match texto::partir_por_primero(nombre, '-') {
                Some(partes) => tipo_y_crate(nombre) == partes,
                None => tipo_y_crate(nombre) == (nombre, Seq::<char>::empty()),
            }
        }),
{
    let kinds = tipos();
    if 0 <= i < kinds.len() && (nombre == kinds[i] || texto::empieza_por(
        nombre,
        kinds[i].push('-'),
    )) && (forall|j: int|
        0 <= j < i ==> nombre != #[trigger] kinds[j] && !texto::empieza_por(
            nombre,
            kinds[j].push('-'),
        )) {
        lemma_primer_tipo(nombre, 0, i);
    }
    if forall|j: int|
        0 <= j < kinds.len() ==> nombre != #[trigger] kinds[j] && !texto::empieza_por(
            nombre,
            kinds[j].push('-'),
        ) {
        lemma_primer_tipo(nombre, 0, kinds.len() as int);
    }
}

/// El primer tipo al que corresponde el nombre es el `i`; si `i` es el final, ninguno.
proof fn lemma_primer_tipo(nombre: Seq<char>, k: int, i: int)
    requires
        0 <= k <= i <= tipos().len(),
        forall|j: int| k <= j < i ==> !es_de_tipo(nombre, #[trigger] tipos()[j]),
        i < tipos().len() ==> es_de_tipo(nombre, tipos()[i]),
    ensures
        tipo_desde(nombre, k) == if i < tipos().len() {
            Some(tipos()[i])
        } else {
            None
        },
    decreases i - k,
{
    if k < i {
        assert(!es_de_tipo(nombre, tipos()[k]));
        lemma_primer_tipo(nombre, k + 1, i);
    }
}

/// Las aristas de un JSON de fingerprint salen de las filas de `deps`, por orden; de
/// lo que no tiene filas no sale ninguna.
pub proof fn ley_las_aristas_salen_de_las_filas(
    antes: Map<Seq<char>, ArbolJson>,
    despues: Map<Seq<char>, ArbolJson>,
    filas: Seq<ArbolJson>,
    fila: ArbolJson,
    otro: ArbolJson,
)
    requires
        antes.contains_key("deps"@) && antes["deps"@] == ArbolJson::Lista(filas),
        despues.contains_key("deps"@) && despues["deps"@] == ArbolJson::Lista(filas.push(fila)),
    ensures
        ({
            let previas = aristas_de(filas_de(ArbolJson::Objeto(antes)));
            let todas = aristas_de(filas_de(ArbolJson::Objeto(despues)));
            &&& filas.len() == 0 ==> previas.len() == 0
            &&& fila matches ArbolJson::Lista(l) ==> match arista_de(fila_de(ArbolJson::Lista(l))) {
                Some(arista) => todas == previas.push(arista),
                None => todas == previas,
            }
            &&& !(fila is Lista) ==> todas == previas
        }),
        !(otro is Objeto) ==> aristas_de(filas_de(otro)).len() == 0,
        otro is Objeto && !(otro->Objeto_0.contains_key("deps"@)) ==> aristas_de(
            filas_de(otro),
        ).len() == 0,
        otro is Objeto && otro->Objeto_0.contains_key("deps"@) && !(otro->Objeto_0["deps"@] is Lista)
            ==> aristas_de(filas_de(otro)).len() == 0,
{
    let a = filas_de(ArbolJson::Objeto(antes));
    let b = filas_de(ArbolJson::Objeto(despues));
    assert(b =~= a.push(fila_de(fila)));
    assert(b.drop_last() =~= a);
    let previas = aristas_de(a);
    if let Some(arista) = arista_de(fila_de(fila)) {
        assert(previas + seq![arista] =~= previas.push(arista));
    }
}

/// La arista de una fila lleva el último de sus números, sea el que sea, y el primero
/// de sus textos, o ninguno. Sin números no hay arista.
pub proof fn ley_la_arista_lleva_el_ultimo_numero(l: Seq<ArbolJson>, i: int, n: u64, j: int)
    requires
        0 <= i < l.len(),
        l[i] == ArbolJson::Natural(n),
        forall|k: int| i < k < l.len() ==> !(#[trigger] l[k] is Natural),
    ensures
        arista_de(fila_de(ArbolJson::Lista(l))) is Some,
        (arista_de(fila_de(ArbolJson::Lista(l)))->0).1 == n,
        0 <= j < l.len() && l[j] is Texto && (forall|k: int| 0 <= k < j ==> !(#[trigger] l[k] is Texto))
            ==> (arista_de(fila_de(ArbolJson::Lista(l)))->0).0 == l[j]->Texto_0,
        (forall|k: int| 0 <= k < l.len() ==> !(#[trigger] l[k] is Texto)) ==> (arista_de(
            fila_de(ArbolJson::Lista(l)),
        )->0).0.len() == 0,
{
    let fila = l.map_values(|a: ArbolJson| celda_de(a));
    lemma_ultimo_natural(l, i, n);
    if 0 <= j < l.len() && l[j] is Texto && (forall|k: int|
        0 <= k < j ==> !(#[trigger] l[k] is Texto)) {
        lemma_primer_texto(l, j);
    }
    if forall|k: int| 0 <= k < l.len() ==> !(#[trigger] l[k] is Texto) {
        lemma_primer_texto(l, l.len() as int);
    }
}

/// Una fila sin números no es una arista.
pub proof fn ley_sin_numeros_no_hay_arista(l: Seq<ArbolJson>)
    requires
        forall|k: int| 0 <= k < l.len() ==> !(#[trigger] l[k] is Natural),
    ensures
        arista_de(fila_de(ArbolJson::Lista(l))) is None,
    decreases l.len(),
{
    let fila = l.map_values(|a: ArbolJson| celda_de(a));
    if l.len() > 0 {
        let antes = l.drop_last();
        assert forall|k: int| 0 <= k < antes.len() implies !(#[trigger] antes[k] is Natural) by {
            assert(antes[k] == l[k]);
        }
        ley_sin_numeros_no_hay_arista(antes);
        assert(fila.drop_last() =~= antes.map_values(|a: ArbolJson| celda_de(a)));
        assert(fila.last() == celda_de(l[l.len() - 1]));
    }
}

proof fn lemma_ultimo_natural(l: Seq<ArbolJson>, i: int, n: u64)
    requires
        0 <= i < l.len(),
        l[i] == ArbolJson::Natural(n),
        forall|k: int| i < k < l.len() ==> !(#[trigger] l[k] is Natural),
    ensures
        ultimo_natural(l.map_values(|a: ArbolJson| celda_de(a))) == Some(n),
    decreases l.len(),
{
    let fila = l.map_values(|a: ArbolJson| celda_de(a));
    assert(fila.last() == celda_de(l[l.len() - 1]));
    if i < l.len() - 1 {
        let antes = l.drop_last();
        assert forall|k: int| i < k < antes.len() implies !(#[trigger] antes[k] is Natural) by {
            assert(antes[k] == l[k]);
        }
        lemma_ultimo_natural(antes, i, n);
        assert(fila.drop_last() =~= antes.map_values(|a: ArbolJson| celda_de(a)));
        assert(!(l[l.len() - 1] is Natural));
    }
}

/// El primer texto de una fila es el de la posición `j`; si `j` es el final, no hay.
proof fn lemma_primer_texto(l: Seq<ArbolJson>, j: int)
    requires
        0 <= j <= l.len(),
        j < l.len() ==> l[j] is Texto,
        forall|k: int| 0 <= k < j ==> !(#[trigger] l[k] is Texto),
    ensures
        primer_texto(l.map_values(|a: ArbolJson| celda_de(a))) == if j < l.len() {
            l[j]->Texto_0
        } else {
            Seq::empty()
        },
    decreases l.len(),
{
    let fila = l.map_values(|a: ArbolJson| celda_de(a));
    if l.len() > 0 {
        assert(fila.first() == celda_de(l[0]));
        if j > 0 {
            let resto = l.drop_first();
            assert forall|k: int| 0 <= k < j - 1 implies !(#[trigger] resto[k] is Texto) by {
                assert(resto[k] == l[k + 1]);
            }
            lemma_primer_texto(resto, j - 1);
            assert(fila.drop_first() =~= resto.map_values(|a: ArbolJson| celda_de(a)));
            assert(!(l[0] is Texto));
        }
    }
}

/// Qué archivos identifican una unidad: todos, menos la marca de tiempo, los `.json`,
/// los `dep-*` y los `output-*`.
pub proof fn ley_que_archivos_identifican(nombre: Seq<char>)
    ensures
        !puede_identificar("invoked.timestamp"@),
        !puede_identificar(nombre + ".json"@),
        !puede_identificar("dep-"@ + nombre),
        !puede_identificar("output-"@ + nombre),
        !puede_identificar(nombre) ==> {
            ||| nombre == "invoked.timestamp"@
            ||| exists|resto: Seq<char>| nombre == #[trigger] (resto + ".json"@)
            ||| exists|resto: Seq<char>| nombre == #[trigger] ("dep-"@ + resto)
            ||| exists|resto: Seq<char>| nombre == #[trigger] ("output-"@ + resto)
        },
{
    texto::ley_empezar_y_terminar(nombre, ".json"@);
    texto::ley_empezar_y_terminar("dep-"@, nombre);
    texto::ley_empezar_y_terminar("output-"@, nombre);
    texto::ley_empezar_y_terminar(nombre, "dep-"@);
    texto::ley_empezar_y_terminar(nombre, "output-"@);
}

/// Las unidades de varios directorios son las de cada uno, por orden.
pub proof fn ley_las_unidades_van_por_directorio(dirs: Seq<DirVisto>, d: DirVisto)
    ensures
        unidades_leidas(Seq::empty()) == Seq::<UnidadVista>::empty(),
        unidades_leidas(dirs.push(d)) == unidades_leidas(dirs) + unidades_leidas(seq![d]),
{
    assert(dirs.push(d).drop_last() =~= dirs);
    assert(seq![d].drop_last() =~= Seq::<DirVisto>::empty());
    assert(unidades_leidas(seq![d].drop_last()) =~= Seq::<UnidadVista>::empty());
    assert(unidades_leidas(seq![d]) =~= unidades_del_dir(d));
}

/// Cada archivo con su `.json` al lado es una unidad del directorio
/// `<paquete>-<hash>/` en que está: su nombre es el stem, y el paquete, el hash y la
/// fecha son los del directorio. Los demás archivos no agregan nada.
pub proof fn ley_una_unidad_por_archivo(
    dir: DirVisto,
    paquete: Seq<char>,
    hash: Seq<char>,
    f: ArchivoVisto,
    nombre: Seq<char>,
)
    requires
        dir.es_dir,
        dir.nombre == encode_utf8(paquete.push('-') + hash),
        es_hash(hash),
    ensures
        ({
            let con_f = DirVisto { archivos: dir.archivos.push(f), ..dir };
            let antes = unidades_leidas(seq![dir]);
            let despues = unidades_leidas(seq![con_f]);
            &&& dir.archivos.len() == 0 ==> antes.len() == 0
            &&& f.nombre == encode_utf8(nombre) && f.tiene_json && puede_identificar(nombre)
                ==> despues == antes.push(
                UnidadVista {
                    pkg: paquete,
                    stem: nombre,
                    filename_hash: hash,
                    fp_hash: match f.huella {
                        Some(t) => hash_de_cargo(texto::recortado(t)),
                        None => None,
                    },
                    deps: match f.json {
                        Some(t) => match json::leido_de_texto(t) {
                            Some(arbol) => aristas_de(filas_de(arbol)),
                            None => Seq::empty(),
                        },
                        None => Seq::empty(),
                    },
                    invoked: dir.invoked,
                },
            )
            &&& !f.tiene_json ==> despues == antes
            &&& f.nombre == encode_utf8(nombre) && !puede_identificar(nombre) ==> despues == antes
            &&& !valid_utf8(f.nombre) ==> despues == antes
        }),
{
    let con_f = DirVisto { archivos: dir.archivos.push(f), ..dir };
    texto::ley_los_nombres_son_utf8(dir.nombre, paquete.push('-') + hash);
    texto::ley_los_nombres_son_utf8(f.nombre, nombre);
    ley_paquete_guion_hash(paquete, hash, paquete.push('-') + hash);
    ley_las_unidades_van_por_directorio(Seq::empty(), dir);
    ley_las_unidades_van_por_directorio(Seq::empty(), con_f);
    assert(seq![dir].drop_last() =~= Seq::<DirVisto>::empty());
    assert(seq![con_f].drop_last() =~= Seq::<DirVisto>::empty());
    assert(unidades_leidas(seq![dir]) =~= unidades_del_dir(dir));
    assert(unidades_leidas(seq![con_f]) =~= unidades_del_dir(con_f));
    let antes = unidades_de_archivos(paquete, hash, dir.invoked, dir.archivos);
    assert(con_f.archivos.drop_last() =~= dir.archivos);
    if let Some(u) = unidad_del_archivo(paquete, hash, dir.invoked, f) {
        assert(antes + seq![u] =~= antes.push(u));
    }
}

/// Lo que no es un directorio, o no se llama `<paquete>-<hash>`, no tiene unidades.
pub proof fn ley_sin_hash_no_hay_unidades(dir: DirVisto)
    requires
        !dir.es_dir || forall|paquete: Seq<char>, hash: Seq<char>|
            es_hash(hash) ==> dir.nombre != encode_utf8(#[trigger] (paquete.push('-') + hash)),
    ensures
        unidades_leidas(seq![dir]).len() == 0,
{
    ley_las_unidades_van_por_directorio(Seq::empty(), dir);
    assert(seq![dir].drop_last() =~= Seq::<DirVisto>::empty());
    assert(unidades_leidas(seq![dir]) =~= unidades_del_dir(dir));
    if let Some((paquete, hash)) = dir_de_unidad(dir) {
        let nombre = texto::texto_de_bytes(dir.nombre)->0;
        texto::ley_los_nombres_son_utf8(dir.nombre, nombre);
        ley_paquete_guion_hash(paquete, hash, nombre);
        assert(dir.nombre == encode_utf8(paquete.push('-') + hash));
    }
}

/// Una unidad se ve como es, campo a campo, y sus aristas una a una.
pub proof fn ley_las_unidades_se_ven_como_son(units: Seq<Unit>, refs: Seq<&Unit>, i: int, k: int)
    ensures
        unidades_vistas(units).len() == units.len(),
        0 <= i < units.len() ==> {
            let u = unidades_vistas(units)[i];
            &&& u.pkg == units[i].pkg@
            &&& u.stem == units[i].stem@
            &&& u.filename_hash == units[i].filename_hash@
            &&& u.fp_hash == units[i].fp_hash
            &&& u.invoked == units[i].invoked
            &&& u.deps.len() == units[i].deps@.len()
            &&& 0 <= k < u.deps.len() ==> u.deps[k].0 == units[i].deps@[k].0@ && u.deps[k].1
                == units[i].deps@[k].1
        },
        vistas_de_referencias(refs).len() == refs.len(),
        0 <= i < refs.len() ==> vistas_de_referencias(refs)[i] == unidades_vistas(
            seq![*refs[i]],
        )[0],
{
}

/// Un perfil se ve como es, campo a campo.
pub proof fn ley_los_perfiles_se_ven_como_son(p: Profile)
    ensures
        p@.label == p.label@,
        p@.dir == p.dir@,
        p@.fingerprint_dir == p.fingerprint_dir@,
        p@.deps_dir == p.deps_dir@,
        p@.units == unidades_vistas(p.units@),
{
}

/// Unas aristas se ven una a una, con su nombre y su número.
pub proof fn ley_las_aristas_se_ven_como_son(deps: Seq<(String, u64)>, k: int)
    ensures
        aristas_vistas(deps).len() == deps.len(),
        0 <= k < deps.len() ==> aristas_vistas(deps)[k].0 == deps[k].0@ && aristas_vistas(deps)[k].1
            == deps[k].1,
{
}

/// Las celdas de una fila se ven como son: los textos como textos, y los números como
/// números.
pub proof fn ley_las_filas_se_ven_como_son(filas: Seq<Option<Vec<Celda>>>, i: int, k: int)
    ensures
        filas_vistas(filas).len() == filas.len(),
        0 <= i < filas.len() && filas[i] is None ==> filas_vistas(filas)[i] is None,
        0 <= i < filas.len() && filas[i] is Some ==> {
            let fila = filas[i]->0@;
            &&& filas_vistas(filas)[i] is Some
            &&& (filas_vistas(filas)[i]->0).len() == fila.len()
            &&& 0 <= k < fila.len() ==> match fila[k] {
                Celda::Texto(t) => (filas_vistas(filas)[i]->0)[k] == CeldaVista::Texto(t@),
                Celda::Natural(n) => (filas_vistas(filas)[i]->0)[k] == CeldaVista::Natural(n),
                Celda::Otra => (filas_vistas(filas)[i]->0)[k] == CeldaVista::Otra,
            }
        },
{
}

/// Lo que se leyó de `.fingerprint/` se ve como es: cada directorio con su nombre, su
/// fecha y sus archivos, y cada archivo con sus textos.
pub proof fn ley_lo_leido_se_ve_como_es(dirs: Seq<DirDeUnidad>, i: int, k: int)
    ensures
        dirs_vistos(dirs).len() == dirs.len(),
        0 <= i < dirs.len() ==> {
            let d = dirs_vistos(dirs)[i];
            &&& d.nombre == dirs[i].nombre@
            &&& d.es_dir == dirs[i].es_dir
            &&& d.invoked == dirs[i].invoked
            &&& d.archivos.len() == dirs[i].archivos@.len()
            &&& 0 <= k < d.archivos.len() ==> {
                let a = dirs[i].archivos@[k];
                &&& d.archivos[k].nombre == a.nombre@
                &&& d.archivos[k].tiene_json == a.tiene_json
                &&& match a.huella {
                    Some(t) => d.archivos[k].huella == Some(t@),
                    None => d.archivos[k].huella is None,
                }
                &&& match a.json {
                    Some(t) => d.archivos[k].json == Some(t@),
                    None => d.archivos[k].json is None,
                }
            }
        },
{
}

/// Las celdas de una fila son los elementos de la lista, uno a uno: todo número es ese
/// número, por grande que sea, y todo texto ese texto.
pub proof fn ley_las_celdas_son_los_elementos(l: Seq<ArbolJson>, n: u64, t: Seq<char>, k: int)
    ensures
        celda_de(ArbolJson::Natural(n)) == CeldaVista::Natural(n),
        celda_de(ArbolJson::Texto(t)) == CeldaVista::Texto(t),
        fila_de(ArbolJson::Lista(l)) is Some,
        (fila_de(ArbolJson::Lista(l))->0).len() == l.len(),
        0 <= k < l.len() ==> {
            let celda = (fila_de(ArbolJson::Lista(l))->0)[k];
            &&& l[k] is Natural ==> celda == CeldaVista::Natural(l[k]->Natural_0)
            &&& l[k] is Texto ==> celda == CeldaVista::Texto(l[k]->Texto_0)
            &&& !(l[k] is Natural) && !(l[k] is Texto) ==> celda == CeldaVista::Otra
        },
{
}

} // verus!
