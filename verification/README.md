# cargo-reap

Recolector de basura para directorios `target/` de Cargo, con sus decisiones
verificadas en [Verus](https://github.com/verus-lang/verus).

Cargo nunca borra artefactos viejos: cada cambio de versión, feature o flag escribe
un archivo nuevo con otro sufijo de hash y deja el anterior ahí. `cargo reap` lee
`.fingerprint/`, calcula qué unidades sigue necesitando el workspace y saca el resto.

## Qué hay aquí

- `src/` es la biblioteca: todo lo que decide, con su contrato y su prueba.
  - `fingerprint`, `perfiles`, `metadatos`, `proyectos`: qué se leyó.
  - `mark`, `artefacto`: qué está vivo y qué está muerto.
  - `sweep`, `proceso`: qué se saca, adónde va y cómo se cuenta.
  - `garantias`: lo que el barrido garantiza, como leyes probadas.
  - `cli`, `informe`, `fecha`, `tamano`: lo que se pide y lo que se cuenta.
  - `texto`, `ruta`, `orden`, `conjunto`, `json`: los cimientos.
- `app/` es el programa: lee el disco, ejecuta `cargo metadata`, mueve y borra.
- `tests/` ejecuta la biblioteca con valores concretos.

## Lo que se garantiza

- Un artefacto que el workspace alcanza por el grafo de fingerprints no se toca, esté
  en el perfil que esté. La excepción son los objetos intermedios de rustc
  (`.rcgu.o`), que rustc reemite; con `--keep-codegen` tampoco.
- Lo que no tiene un hash reconocible no se toca, salvo esos mismos intermedios.
- Sin `--apply` no se toca nada, y `--list-dead` nunca borra.
- Un perfil con un build en curso, o sin unidades del workspace, no se barre.
- Lo que va a la papelera conserva su ruta relativa, y nada se pisa.
- Un lote de papelera se purga si y sólo si es más viejo que la retención.

## En qué se confía

La lectura de JSON es la de `serde_json`, y la de UTF-8 la de la biblioteca estándar:
lo que se supone de ellas está escrito en `src/json.rs` y al principio de
`src/texto.rs`.
