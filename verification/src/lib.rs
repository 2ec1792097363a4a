//! cargo-reap — recolector de basura para directorios `target/` de Cargo.
//!
//! Cargo nunca borra artefactos viejos: cada cambio de versión, feature o flag
//! escribe un archivo nuevo con otro sufijo de hash y deja el anterior ahí para
//! siempre. La fase **mark** reconstruye, leyendo `.fingerprint/`, qué artefactos
//! de `deps/` sigue necesitando el build actual; la fase **sweep** saca el resto.
//!
//! Esta biblioteca decide. Recibe lo que hay en el disco como valores —nombres,
//! tamaños, contenidos— y devuelve qué está vivo, qué sobra y qué hay que mover o
//! borrar. Leer el disco, ejecutar `cargo metadata` y tocar archivos es cosa del
//! programa que la usa.

pub mod artefacto;
pub mod cli;
pub mod conjunto;
pub mod fecha;
pub mod fingerprint;
pub mod garantias;
pub mod informe;
pub mod json;
pub mod mark;
pub mod metadatos;
pub mod orden;
pub mod perfiles;
pub mod proceso;
pub mod proyectos;
pub mod ruta;
pub mod sweep;
pub mod tamano;
pub mod texto;
