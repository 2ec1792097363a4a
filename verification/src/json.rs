//! JSON, tal como lo lee `serde_json`.

use vstd::prelude::*;

verus! {

/// Un valor JSON ya leído.
#[verifier::external_type_specification]
#[verifier::external_body]
pub struct ExValue(serde_json::Value);

/// Lo que `serde_json` dice de un texto que no es JSON.
#[verifier::external_type_specification]
#[verifier::external_body]
pub struct ExError(serde_json::Error);

/// El contenido de un valor JSON.
pub enum ArbolJson {
    Texto(Seq<char>),
    /// Un número entero entre 0 y `u64::MAX`.
    Natural(u64),
    Lista(Seq<ArbolJson>),
    Objeto(Map<Seq<char>, ArbolJson>),
    /// Un nulo, un booleano o cualquier otro número.
    Otro,
}

/// El contenido de un valor de `serde_json`.
pub uninterp spec fn contenido(valor: serde_json::Value) -> ArbolJson;

/// El contenido del JSON que lee `serde_json::from_str`; nada si no es JSON.
pub uninterp spec fn leido_de_texto(texto: Seq<char>) -> Option<ArbolJson>;

/// El contenido del JSON que lee `serde_json::from_slice`; nada si no es JSON.
pub uninterp spec fn leido_de_bytes(bytes: Seq<u8>) -> Option<ArbolJson>;

/// Los bytes o el texto no son JSON.
#[derive(Debug)]
pub struct JsonInvalido {
    pub causa: serde_json::Error,
}

/// Llama a `serde_json::from_str`: lo que lee depende sólo del texto.
#[verifier::external_body]
pub(crate) fn leer_texto(texto: &str) -> (r: Result<serde_json::Value, serde_json::Error>)
    ensures
        match r {
            Ok(valor) => leido_de_texto(texto@) == Some(contenido(valor)),
            Err(_) => leido_de_texto(texto@) is None,
        },
{
    serde_json::from_str(texto)
}

/// Llama a `serde_json::from_slice`: lo que lee depende sólo de los bytes.
#[verifier::external_body]
pub(crate) fn leer_bytes(bytes: &Vec<u8>) -> (r: Result<serde_json::Value, serde_json::Error>)
    ensures
        match r {
            Ok(valor) => leido_de_bytes(bytes@) == Some(contenido(valor)),
            Err(_) => leido_de_bytes(bytes@) is None,
        },
{
    serde_json::from_slice(bytes)
}

/// `Value::as_str` da el texto de un valor que es un texto, y nada de otro.
pub assume_specification[ serde_json::Value::as_str ](valor: &serde_json::Value) -> (r: Option<&str>)
    ensures
        match r {
            Some(s) => contenido(*valor) == ArbolJson::Texto(s@),
            None => !(contenido(*valor) is Texto),
        },
;

/// `Value::as_u64` da el número de un valor que es un entero sin signo, y nada de
/// otro.
pub assume_specification[ serde_json::Value::as_u64 ](valor: &serde_json::Value) -> (r: Option<u64>)
    ensures
        match r {
            Some(n) => contenido(*valor) == ArbolJson::Natural(n),
            None => !(contenido(*valor) is Natural),
        },
;

/// `Value::as_array` da los elementos de un valor que es una lista, y nada de otro.
pub assume_specification[ serde_json::Value::as_array ](valor: &serde_json::Value) -> (r: Option<
    &Vec<serde_json::Value>,
>)
    ensures
        match r {
            Some(v) => contenido(*valor) == ArbolJson::Lista(contenidos(v@)),
            None => !(contenido(*valor) is Lista),
        },
;

/// Llama a `Value::get` con una clave: el valor de esa clave si es un objeto que
/// la tiene, y nada en otro caso.
#[verifier::external_body]
pub(crate) fn obtener<'a>(valor: &'a serde_json::Value, clave: &str) -> (r: Option<
    &'a serde_json::Value,
>)
    ensures
        match r {
            Some(v) => campo(contenido(*valor), clave@) == Some(contenido(*v)),
            None => campo(contenido(*valor), clave@) is None,
        },
{
    valor.get(clave)
}

/// Los contenidos de unos valores.
pub open spec fn contenidos(valores: Seq<serde_json::Value>) -> Seq<ArbolJson> {
    valores.map_values(|v: serde_json::Value| contenido(v))
}

/// El valor de una clave de un objeto.
pub open spec fn campo(arbol: ArbolJson, clave: Seq<char>) -> Option<ArbolJson> {
    match arbol {
        ArbolJson::Objeto(campos) => if campos.contains_key(clave) {
            Some(campos[clave])
        } else {
            None
        },
        _ => None,
    }
}

/// El texto de la clave de un objeto.
pub open spec fn campo_de_texto(arbol: ArbolJson, clave: Seq<char>) -> Option<Seq<char>> {
    match campo(arbol, clave) {
        Some(ArbolJson::Texto(t)) => Some(t),
        _ => None,
    }
}

/// Los elementos de la lista que hay en la clave de un objeto; ninguno si no hay
/// lista.
pub open spec fn campo_de_lista(arbol: ArbolJson, clave: Seq<char>) -> Seq<ArbolJson> {
    match campo(arbol, clave) {
        Some(ArbolJson::Lista(l)) => l,
        _ => Seq::empty(),
    }
}

/// El texto de la clave de un objeto.
pub(crate) fn obtener_texto(valor: &serde_json::Value, clave: &str) -> (r: Option<String>)
    ensures
        match r {
            Some(t) => campo_de_texto(contenido(*valor), clave@) == Some(t@),
            None => campo_de_texto(contenido(*valor), clave@) is None,
        },
{
    match obtener(valor, clave) {
        Some(v) => match v.as_str() {
            Some(s) => Some(s.to_owned()),
            None => None,
        },
        None => None,
    }
}

/// La lista que hay en la clave de un objeto.
pub(crate) fn obtener_lista<'a>(valor: &'a serde_json::Value, clave: &str) -> (r: Option<
    &'a Vec<serde_json::Value>,
>)
    ensures
        match r {
            Some(v) => contenidos(v@) == campo_de_lista(contenido(*valor), clave@),
            None => campo_de_lista(contenido(*valor), clave@).len() == 0,
        },
{
    match obtener(valor, clave) {
        Some(v) => v.as_array(),
        None => None,
    }
}

} // verus!
