//! Los `target/` que hay bajo una carpeta.

use crate::metadatos;
use crate::orden;
use crate::perfiles;
use crate::ruta::{self, Ruta};
use crate::texto;
use vstd::prelude::*;
use vstd::string::*;
use vstd::utf8::*;

verus! {

/// Un elemento de una carpeta con proyectos, tal como se leyó.
pub struct Directorio {
    pub nombre: Vec<u8>,
    pub es_dir: bool,
    /// Hay en él un archivo `CACHEDIR.TAG`.
    pub con_marca: bool,
    /// Hay en él un archivo `Cargo.toml`.
    pub con_manifiesto: bool,
    /// Lo que contiene, si [`entra`] dice que hay que bajar.
    pub hijos: Vec<Directorio>,
}

/// Cuántos niveles se baja desde la carpeta de partida.
pub const PROFUNDIDAD: usize = 5;

/// ¿Es un `target/` de Cargo un directorio con esa ruta?
pub open spec fn parece_target(
    path: Seq<Seq<u8>>,
    con_marca: bool,
    manifiesto_al_lado: bool,
) -> bool {
    ||| con_marca
    ||| path.len() > 0 && texto::es_nombre(path.last(), "target"@) && manifiesto_al_lado
}

/// ¿Este directorio es un `target/` de Cargo?
///
/// Cargo deja un `CACHEDIR.TAG` en la raíz de cada uno, que es la señal más
/// directa. No basta con buscar `.fingerprint` hacia abajo: desde una carpeta
/// que contiene varios proyectos también se encuentran, y el directorio entero
/// pasaría por un solo target.
///
/// `con_marca` dice si hay en él un archivo `CACHEDIR.TAG`, y `manifiesto_al_lado`
/// si en el directorio que lo contiene hay un `Cargo.toml`.
pub fn es_target(path: &Ruta, con_marca: bool, manifiesto_al_lado: bool) -> (r: bool)
    ensures
        r == parece_target(path@, con_marca, manifiesto_al_lado),
{
    if con_marca {
        return true;
    }
    match path.file_name() {
        Some(nombre) => texto::se_llama(nombre, "target") && manifiesto_al_lado,
        None => false,
    }
}

/// ¿Es el nombre de un directorio en el que no hay proyectos que interesen?
///
/// Es sólo el ruido conocido. Descartar todo lo que empiece con punto perdería los
/// worktrees, que viven en directorios ocultos como `.teg/`.
pub open spec fn es_ruido(nombre: Seq<u8>) -> bool {
    ||| texto::es_nombre(nombre, ".git"@)
    ||| texto::es_nombre(nombre, ".gw"@)
    ||| texto::es_nombre(nombre, ".cargo"@)
    ||| texto::es_nombre(nombre, ".rustup"@)
    ||| texto::es_nombre(nombre, ".venv"@)
    ||| texto::es_nombre(nombre, ".tox"@)
    ||| texto::es_nombre(nombre, "node_modules"@)
    ||| texto::es_nombre(nombre, "vendor"@)
}

/// ¿Hay que buscar dentro de un directorio con ese nombre?
pub open spec fn se_explora(nombre: Seq<u8>) -> bool {
    !texto::es_nombre(nombre, "target"@) && !es_ruido(nombre)
}

/// ¿Hay que buscar dentro de un directorio con ese nombre?
///
/// Nunca se desciende dentro de un `target/`.
pub fn entra(nombre: &Vec<u8>) -> (r: bool)
    ensures
        r == se_explora(nombre@),
{
    !(texto::se_llama(nombre, "target") || texto::se_llama(nombre, ".git") || texto::se_llama(
        nombre,
        ".gw",
    ) || texto::se_llama(nombre, ".cargo") || texto::se_llama(nombre, ".rustup")
        || texto::se_llama(nombre, ".venv") || texto::se_llama(nombre, ".tox") || texto::se_llama(
        nombre,
        "node_modules",
    ) || texto::se_llama(nombre, "vendor"))
}

/// Los `target/` que hay en los `n` primeros elementos de un directorio, y debajo
/// de ellos hasta [`PROFUNDIDAD`] niveles bajo la carpeta de partida.
pub open spec fn encontrados(
    dir: Seq<Seq<u8>>,
    con_manifiesto: bool,
    hijos: Seq<Directorio>,
    n: nat,
    depth: nat,
) -> Seq<Seq<Seq<u8>>>
    decreases PROFUNDIDAD + 1 - depth, n,
{
    if depth > PROFUNDIDAD || n == 0 {
        Seq::empty()
    } else {
        let x = hijos[n - 1];
        let path = dir.push(x.nombre@);
        let previos = encontrados(dir, con_manifiesto, hijos, (n - 1) as nat, depth);
        if !x.es_dir {
            previos
        } else if texto::es_nombre(x.nombre@, "target"@) {
            if parece_target(path, x.con_marca, con_manifiesto) {
                previos.push(path)
            } else {
                previos
            }
        } else if es_ruido(x.nombre@) {
            previos
        } else {
            previos + encontrados(path, x.con_manifiesto, x.hijos@, x.hijos@.len(), depth + 1)
        }
    }
}

/// ¿Se puede bajar siguiendo unos pasos? Cada paso es la posición de un elemento, que
/// tiene que ser un directorio en el que se buscan proyectos.
pub open spec fn se_llega(hijos: Seq<Directorio>, pasos: Seq<int>) -> bool
    decreases pasos.len(),
{
    pasos.len() > 0 ==> {
        &&& 0 <= pasos[0] < hijos.len()
        &&& hijos[pasos[0]].es_dir
        &&& se_explora(hijos[pasos[0]].nombre@)
        &&& se_llega(hijos[pasos[0]].hijos@, pasos.drop_first())
    }
}

/// Lo que contiene el directorio al que llevan unos pasos.
pub open spec fn contenido_en(hijos: Seq<Directorio>, pasos: Seq<int>) -> Seq<Directorio>
    decreases pasos.len(),
{
    if pasos.len() == 0 {
        hijos
    } else {
        contenido_en(hijos[pasos[0]].hijos@, pasos.drop_first())
    }
}

/// La ruta del directorio al que llevan unos pasos.
pub open spec fn ruta_en(dir: Seq<Seq<u8>>, hijos: Seq<Directorio>, pasos: Seq<int>) -> Seq<Seq<u8>>
    decreases pasos.len(),
{
    if pasos.len() == 0 {
        dir
    } else {
        ruta_en(dir.push(hijos[pasos[0]].nombre@), hijos[pasos[0]].hijos@, pasos.drop_first())
    }
}

/// ¿Hay un `Cargo.toml` en el directorio al que llevan unos pasos?
pub open spec fn manifiesto_en(con_manifiesto: bool, hijos: Seq<Directorio>, pasos: Seq<int>) -> bool
    decreases pasos.len(),
{
    if pasos.len() == 0 {
        con_manifiesto
    } else {
        manifiesto_en(
            hijos[pasos[0]].con_manifiesto,
            hijos[pasos[0]].hijos@,
            pasos.drop_first(),
        )
    }
}

/// ¿Es `p` la ruta del `target/` que está en la posición `k` del directorio al que
/// llevan unos pasos?
pub open spec fn es_target_en(
    dir: Seq<Seq<u8>>,
    con_manifiesto: bool,
    hijos: Seq<Directorio>,
    pasos: Seq<int>,
    k: int,
    p: Seq<Seq<u8>>,
) -> bool {
    let dentro = contenido_en(hijos, pasos);
    &&& se_llega(hijos, pasos)
    &&& 0 <= k < dentro.len()
    &&& dentro[k].es_dir
    &&& texto::es_nombre(dentro[k].nombre@, "target"@)
    &&& p == ruta_en(dir, hijos, pasos).push(dentro[k].nombre@)
    &&& parece_target(p, dentro[k].con_marca, manifiesto_en(con_manifiesto, hijos, pasos))
}

/// ¿Es `p` la ruta de un `target/` que está en un directorio al que se llega en no más
/// de [`PROFUNDIDAD`] pasos?
pub open spec fn hay_target(
    dir: Seq<Seq<u8>>,
    con_manifiesto: bool,
    hijos: Seq<Directorio>,
    p: Seq<Seq<u8>>,
) -> bool {
    exists|pasos: Seq<int>, k: int|
        pasos.len() <= PROFUNDIDAD && #[trigger] es_target_en(
            dir,
            con_manifiesto,
            hijos,
            pasos,
            k,
            p,
        )
}

/// Busca los directorios `target/` que cuelgan de un directorio: los que son
/// hermanos de un `Cargo.toml`, o llevan la marca de Cargo.
pub fn buscar_targets(
    dir: &Ruta,
    con_manifiesto: bool,
    hijos: &Vec<Directorio>,
    depth: usize,
    out: &mut Vec<Ruta>,
)
    ensures
        orden::rutas_vistas(final(out)@) == orden::rutas_vistas(old(out)@) + encontrados(
            dir@,
            con_manifiesto,
            hijos@,
            hijos@.len(),
            depth as nat,
        ),
    decreases PROFUNDIDAD + 1 - depth,
{
    let ghost previos = orden::rutas_vistas(out@);
    assert(previos + Seq::<Seq<Seq<u8>>>::empty() =~= previos);
    if depth > PROFUNDIDAD {
        return;
    }
    for i in 0..hijos.len()
        invariant
            depth <= PROFUNDIDAD,
            orden::rutas_vistas(out@) == previos + encontrados(
                dir@,
                con_manifiesto,
                hijos@,
                i as nat,
                depth as nat,
            ),
    {
        let hijo = &hijos[i];
        let ghost antes = out@;
        let ghost hechos = encontrados(dir@, con_manifiesto, hijos@, i as nat, depth as nat);
        let ghost vista = dir@.push(hijo.nombre@);
        if hijo.es_dir {
            let path = dir.hijo(&hijo.nombre);
            if texto::se_llama(&hijo.nombre, "target") {
                if es_target(&path, hijo.con_marca, con_manifiesto) {
                    out.push(path);
                    assert(orden::rutas_vistas(out@) =~= orden::rutas_vistas(antes).push(vista));
                    assert((previos + hechos).push(vista) =~= previos + hechos.push(vista));
                }
            } else if entra(&hijo.nombre) {
                buscar_targets(&path, hijo.con_manifiesto, &hijo.hijos, depth + 1, out);
                let ghost debajo = encontrados(
                    vista,
                    hijo.con_manifiesto,
                    hijo.hijos@,
                    hijo.hijos@.len(),
                    (depth + 1) as nat,
                );
                assert((previos + hechos) + debajo =~= previos + (hechos + debajo));
            }
        }
    }
}

/// La carpeta que se pidió recorrer, tal como se leyó.
pub struct Partida {
    /// Hay en ella un archivo `CACHEDIR.TAG`.
    pub con_marca: bool,
    /// Hay en ella un archivo `Cargo.toml`.
    pub con_manifiesto: bool,
    /// Hay un archivo `Cargo.toml` en el directorio que la contiene.
    pub manifiesto_al_lado: bool,
    /// Lo que contiene, si no es un `target/`.
    pub hijos: Vec<Directorio>,
}

/// Decide si la ruta es un `target/` o una carpeta con varios proyectos dentro.
pub fn resolver_targets(path: &Ruta, partida: &Partida) -> (r: Vec<Ruta>)
    ensures
        parece_target(path@, partida.con_marca, partida.manifiesto_al_lado)
            ==> orden::rutas_vistas(r@) == seq![path@],
        !parece_target(path@, partida.con_marca, partida.manifiesto_al_lado) ==> {
            &&& orden::rutas_ordenadas(orden::rutas_vistas(r@))
            &&& orden::rutas_vistas(r@).to_multiset() == encontrados(
                path@,
                partida.con_manifiesto,
                partida.hijos@,
                partida.hijos@.len(),
                0,
            ).to_multiset()
            &&& forall|p: Seq<Seq<u8>>| #[trigger]
                orden::rutas_vistas(r@).contains(p) <==> hay_target(
                    path@,
                    partida.con_manifiesto,
                    partida.hijos@,
                    p,
                )
        },
{
    let mut out: Vec<Ruta> = Vec::new();
    assert(orden::rutas_vistas(out@) =~= Seq::<Seq<Seq<u8>>>::empty());
    if es_target(path, partida.con_marca, partida.manifiesto_al_lado) {
        out.push(path.clone());
        assert(orden::rutas_vistas(out@) =~= seq![path@]);
        return out;
    }
    buscar_targets(path, partida.con_manifiesto, &partida.hijos, 0, &mut out);
    let ghost vistos = encontrados(
        path@,
        partida.con_manifiesto,
        partida.hijos@,
        partida.hijos@.len(),
        0,
    );
    assert(orden::rutas_vistas(out@) =~= vistos);
    let r = orden::ordenar_rutas(out);
    proof {
        let ordenadas = orden::rutas_vistas(r@);
        assert forall|p: Seq<Seq<u8>>| #[trigger] ordenadas.contains(p) <==> hay_target(
            path@,
            partida.con_manifiesto,
            partida.hijos@,
            p,
        ) by {
            broadcast use vstd::seq_lib::group_to_multiset_ensures;

            assert(ordenadas.contains(p) <==> ordenadas.to_multiset().count(p) > 0);
            assert(vistos.contains(p) <==> vistos.to_multiset().count(p) > 0);
            ley_se_encuentran_todos_los_targets(
                path@,
                partida.con_manifiesto,
                partida.hijos@,
                p,
            );
        }
    }
    r
}

/// Por dónde empieza el camino hasta un `target/`: el primer paso o, si no hay
/// ninguno, él mismo.
spec fn primero(pasos: Seq<int>, k: int) -> int {
    if pasos.len() == 0 {
        k
    } else {
        pasos[0]
    }
}

/// Todo `target/` al que se llega se encuentra.
proof fn lemma_se_encuentra(
    dir: Seq<Seq<u8>>,
    con_manifiesto: bool,
    hijos: Seq<Directorio>,
    n: nat,
    depth: nat,
    pasos: Seq<int>,
    k: int,
    p: Seq<Seq<u8>>,
)
    requires
        es_target_en(dir, con_manifiesto, hijos, pasos, k, p),
        pasos.len() + depth <= PROFUNDIDAD,
        0 <= primero(pasos, k) < n <= hijos.len(),
    ensures
        encontrados(dir, con_manifiesto, hijos, n, depth).contains(p),
    decreases PROFUNDIDAD + 1 - depth, n,
{
    let x = hijos[n - 1];
    let path = dir.push(x.nombre@);
    let todos = encontrados(dir, con_manifiesto, hijos, n, depth);
    let previos = encontrados(dir, con_manifiesto, hijos, (n - 1) as nat, depth);
    if primero(pasos, k) < n - 1 {
        lemma_se_encuentra(dir, con_manifiesto, hijos, (n - 1) as nat, depth, pasos, k, p);
        let i = choose|i: int| 0 <= i < previos.len() && previos[i] == p;
        assert(todos[i] == p);
    } else if pasos.len() == 0 {
        assert(todos[previos.len() as int] == p);
    } else {
        let debajo = encontrados(path, x.con_manifiesto, x.hijos@, x.hijos@.len(), depth + 1);
        let resto = pasos.drop_first();
        assert(se_llega(x.hijos@, resto));
        assert(resto.len() > 0 ==> 0 <= resto[0] < x.hijos@.len());
        assert(contenido_en(hijos, pasos) == contenido_en(x.hijos@, resto));
        assert(resto.len() == 0 ==> contenido_en(x.hijos@, resto) == x.hijos@);
        lemma_se_encuentra(
            path,
            x.con_manifiesto,
            x.hijos@,
            x.hijos@.len(),
            depth + 1,
            resto,
            k,
            p,
        );
        let i = choose|i: int| 0 <= i < debajo.len() && debajo[i] == p;
        assert(todos[previos.len() + i] == p);
    }
}

/// A todo lo que se encuentra se llega por algún camino.
proof fn lemma_se_llega_a_lo_encontrado(
    dir: Seq<Seq<u8>>,
    con_manifiesto: bool,
    hijos: Seq<Directorio>,
    n: nat,
    depth: nat,
    i: int,
) -> (camino: (Seq<int>, int))
    requires
        n <= hijos.len(),
        0 <= i < encontrados(dir, con_manifiesto, hijos, n, depth).len(),
    ensures
        es_target_en(
            dir,
            con_manifiesto,
            hijos,
            camino.0,
            camino.1,
            encontrados(dir, con_manifiesto, hijos, n, depth)[i],
        ),
        camino.0.len() + depth <= PROFUNDIDAD,
    decreases PROFUNDIDAD + 1 - depth, n,
{
    let x = hijos[n - 1];
    let previos = encontrados(dir, con_manifiesto, hijos, (n - 1) as nat, depth);
    if i < previos.len() {
        lemma_se_llega_a_lo_encontrado(dir, con_manifiesto, hijos, (n - 1) as nat, depth, i)
    } else if texto::es_nombre(x.nombre@, "target"@) {
        (Seq::empty(), n - 1)
    } else {
        let (resto, k) = lemma_se_llega_a_lo_encontrado(
            dir.push(x.nombre@),
            x.con_manifiesto,
            x.hijos@,
            x.hijos@.len(),
            depth + 1,
            i - previos.len(),
        );
        let pasos = seq![n - 1] + resto;
        assert(pasos.drop_first() =~= resto);
        (pasos, k)
    }
}

/// Se encuentran todos los `target/` y nada más: los que están en un directorio al
/// que se llega desde la carpeta en no más de [`PROFUNDIDAD`] pasos, sin pasar por
/// otro `target/` ni por el ruido.
pub proof fn ley_se_encuentran_todos_los_targets(
    dir: Seq<Seq<u8>>,
    con_manifiesto: bool,
    hijos: Seq<Directorio>,
    p: Seq<Seq<u8>>,
)
    ensures
        encontrados(dir, con_manifiesto, hijos, hijos.len(), 0).contains(p) <==> hay_target(
            dir,
            con_manifiesto,
            hijos,
            p,
        ),
{
    let todos = encontrados(dir, con_manifiesto, hijos, hijos.len(), 0);
    if todos.contains(p) {
        let i = choose|i: int| 0 <= i < todos.len() && todos[i] == p;
        let (pasos, k) = lemma_se_llega_a_lo_encontrado(
            dir,
            con_manifiesto,
            hijos,
            hijos.len(),
            0,
            i,
        );
        assert(es_target_en(dir, con_manifiesto, hijos, pasos, k, p));
    }
    if hay_target(dir, con_manifiesto, hijos, p) {
        let (pasos, k) = choose|pasos: Seq<int>, k: int|
            pasos.len() <= PROFUNDIDAD && #[trigger] es_target_en(
                dir,
                con_manifiesto,
                hijos,
                pasos,
                k,
                p,
            );
        lemma_se_encuentra(dir, con_manifiesto, hijos, hijos.len(), 0, pasos, k, p);
    }
}

/// El nombre con que se muestra el proyecto de un `target/`: la ruta de su raíz
/// relativa a la carpeta que se recorre o, si es esa misma, su último nombre.
pub open spec fn nombre_de_proyecto(base: Seq<Seq<u8>>, target: Seq<Seq<u8>>) -> Seq<char> {
    let raiz = metadatos::raiz_de(target);
    let nombre = perfiles::etiqueta(base, raiz);
    if nombre.len() > 0 {
        nombre
    } else if raiz.len() > 0 {
        texto::mostrado(raiz.last())
    } else {
        Seq::empty()
    }
}

/// El nombre con que se muestra el proyecto de un `target/`.
pub fn nombrar_proyecto(base: &Ruta, target: &Ruta) -> (r: String)
    ensures
        r@ == nombre_de_proyecto(base@, target@),
{
    let raiz = metadatos::raiz_del_proyecto(target);
    let nombre = perfiles::etiquetar(base, &raiz);
    if nombre.as_str().unicode_len() > 0 {
        return nombre;
    }
    match raiz.file_name() {
        Some(ultimo) => texto::mostrar(ultimo),
        None => String::new(),
    }
}

/// ¿Es la ruta de un `target/` que se encuentra sin pasar por otro ni por el ruido?
pub open spec fn bien_encontrado(p: Seq<Seq<u8>>, dir: Seq<Seq<u8>>, niveles: int) -> bool {
    &&& ruta::cuelga_de(p, dir)
    &&& dir.len() < p.len() <= dir.len() + niveles + 1
    &&& texto::es_nombre(p.last(), "target"@)
    &&& forall|k: int| dir.len() <= k < p.len() - 1 ==> se_explora(#[trigger] p[k])
}

proof fn lemma_encontrados(
    dir: Seq<Seq<u8>>,
    con_manifiesto: bool,
    hijos: Seq<Directorio>,
    n: nat,
    depth: nat,
    i: int,
)
    requires
        0 <= i < encontrados(dir, con_manifiesto, hijos, n, depth).len(),
    ensures
        bien_encontrado(
            encontrados(dir, con_manifiesto, hijos, n, depth)[i],
            dir,
            PROFUNDIDAD - depth,
        ),
    decreases PROFUNDIDAD + 1 - depth, n,
{
    let x = hijos[n - 1];
    let path = dir.push(x.nombre@);
    let previos = encontrados(dir, con_manifiesto, hijos, (n - 1) as nat, depth);
    if i < previos.len() {
        lemma_encontrados(dir, con_manifiesto, hijos, (n - 1) as nat, depth, i);
    } else if texto::es_nombre(x.nombre@, "target"@) {
        assert(path.take(dir.len() as int) =~= dir);
    } else {
        let debajo = encontrados(path, x.con_manifiesto, x.hijos@, x.hijos@.len(), depth + 1);
        let p = debajo[i - previos.len()];
        lemma_encontrados(
            path,
            x.con_manifiesto,
            x.hijos@,
            x.hijos@.len(),
            depth + 1,
            i - previos.len(),
        );
        assert(p.take(path.len() as int)[dir.len() as int] == x.nombre@);
        assert(p.take(dir.len() as int) =~= dir) by {
            assert(p.take(path.len() as int).take(dir.len() as int) =~= p.take(dir.len() as int));
            assert(path.take(dir.len() as int) =~= dir);
        }
        assert forall|k: int| dir.len() <= k < p.len() - 1 implies se_explora(#[trigger] p[k]) by {
            if k == dir.len() {
                assert(p[k] == x.nombre@);
            }
        }
    }
}

/// Lo que se encuentra se llama `target`, cuelga de la carpeta a no más de
/// [`PROFUNDIDAD`] niveles, y no está dentro de otro `target/` ni del ruido.
pub proof fn ley_no_se_busca_dentro_de_un_target(
    dir: Seq<Seq<u8>>,
    con_manifiesto: bool,
    hijos: Seq<Directorio>,
    i: int,
)
    requires
        0 <= i < encontrados(dir, con_manifiesto, hijos, hijos.len(), 0).len(),
    ensures
        bien_encontrado(
            encontrados(dir, con_manifiesto, hijos, hijos.len(), 0)[i],
            dir,
            PROFUNDIDAD as int,
        ),
{
    lemma_encontrados(dir, con_manifiesto, hijos, hijos.len(), 0, i);
}

/// El proyecto de un `target/` se muestra con la ruta de su raíz relativa a la
/// carpeta que se recorre; si es esa misma carpeta, con el nombre de ella.
pub proof fn ley_el_proyecto_se_nombra_por_su_ruta(
    base: Seq<Seq<u8>>,
    nombres: Seq<Seq<char>>,
    propio: Seq<char>,
    target: Seq<u8>,
)
    ensures
        texto::unidos(nombres, "/"@).len() > 0 ==> nombre_de_proyecto(
            base,
            (base + ruta::codificados(nombres)).push(target),
        ) == texto::unidos(nombres, "/"@),
        nombre_de_proyecto(
            base.push(encode_utf8(propio)),
            base.push(encode_utf8(propio)).push(target),
        ) == propio,
{
    let raiz = base + ruta::codificados(nombres);
    assert(raiz.push(target).drop_last() =~= raiz);
    perfiles::ley_la_etiqueta_es_la_ruta_relativa(base, nombres);
    let carpeta = base.push(encode_utf8(propio));
    let nada = Seq::<Seq<char>>::empty();
    assert(carpeta.push(target).drop_last() =~= carpeta);
    assert(carpeta + ruta::codificados(nada) =~= carpeta);
    perfiles::ley_la_etiqueta_es_la_ruta_relativa(carpeta, nada);
    encode_utf8_valid_utf8(propio);
    encode_utf8_decode_utf8(propio);
}

/// Qué es un `target/`: lo que lleva la marca de Cargo, se llame como se llame, o lo que
/// se llama `target` al lado de un `Cargo.toml`.
pub proof fn ley_que_es_un_target(
    dir: Seq<Seq<u8>>,
    nombre: Seq<u8>,
    con_marca: bool,
    manifiesto_al_lado: bool,
)
    ensures
        parece_target(dir.push(nombre), con_marca, manifiesto_al_lado) <==> {
            ||| con_marca
            ||| nombre == encode_utf8("target"@) && manifiesto_al_lado
        },
        parece_target(Seq::empty(), con_marca, manifiesto_al_lado) <==> con_marca,
{
    texto::ley_los_nombres_son_utf8(nombre, "target"@);
    assert(dir.push(nombre).last() == nombre);
}

/// Dónde se buscan proyectos: en todos los directorios, ocultos o no, menos en los
/// `target/` y en el ruido conocido.
pub proof fn ley_donde_se_buscan_proyectos(nombre: Seq<u8>)
    ensures
        se_explora(nombre) <==> {
            &&& nombre != encode_utf8("target"@)
            &&& nombre != encode_utf8(".git"@)
            &&& nombre != encode_utf8(".gw"@)
            &&& nombre != encode_utf8(".cargo"@)
            &&& nombre != encode_utf8(".rustup"@)
            &&& nombre != encode_utf8(".venv"@)
            &&& nombre != encode_utf8(".tox"@)
            &&& nombre != encode_utf8("node_modules"@)
            &&& nombre != encode_utf8("vendor"@)
        },
{
    texto::ley_los_nombres_son_utf8(nombre, "target"@);
    texto::ley_los_nombres_son_utf8(nombre, ".git"@);
    texto::ley_los_nombres_son_utf8(nombre, ".gw"@);
    texto::ley_los_nombres_son_utf8(nombre, ".cargo"@);
    texto::ley_los_nombres_son_utf8(nombre, ".rustup"@);
    texto::ley_los_nombres_son_utf8(nombre, ".venv"@);
    texto::ley_los_nombres_son_utf8(nombre, ".tox"@);
    texto::ley_los_nombres_son_utf8(nombre, "node_modules"@);
    texto::ley_los_nombres_son_utf8(nombre, "vendor"@);
}

/// Todo `target/` se encuentra: el directorio con ese nombre que está en la carpeta, o a
/// no más de cinco directorios de ella en los que se busque, y que lleva la marca de
/// Cargo o tiene un `Cargo.toml` al lado. Su ruta es la de esos directorios.
pub proof fn ley_todo_target_se_encuentra(
    dir: Seq<Seq<u8>>,
    con_manifiesto: bool,
    hijos: Seq<Directorio>,
    cadena: Seq<Directorio>,
    target: Directorio,
)
    requires
        cadena.len() <= 5,
        forall|k: int|
            0 <= k < cadena.len() ==> (#[trigger] cadena[k]).es_dir && se_explora(
                cadena[k].nombre@,
            ),
        cadena.len() > 0 ==> hijos.contains(cadena[0]),
        forall|k: int|
            0 <= k < cadena.len() - 1 ==> (#[trigger] cadena[k]).hijos@.contains(cadena[k + 1]),
        cadena.len() == 0 ==> hijos.contains(target) && (target.con_marca || con_manifiesto),
        cadena.len() > 0 ==> cadena.last().hijos@.contains(target) && (target.con_marca
            || cadena.last().con_manifiesto),
        target.es_dir,
        target.nombre@ == encode_utf8("target"@),
    ensures
        encontrados(dir, con_manifiesto, hijos, hijos.len(), 0).contains(
            (dir + cadena.map_values(|x: Directorio| x.nombre@)).push(encode_utf8("target"@)),
        ),
{
    texto::ley_los_nombres_son_utf8(target.nombre@, "target"@);
    let pasos = lemma_pasos_de(con_manifiesto, hijos, cadena);
    lemma_ruta_de_los_pasos(dir, hijos, pasos, cadena);
    let dentro = contenido_en(hijos, pasos);
    let k = choose|k: int| 0 <= k < dentro.len() && dentro[k] == target;
    let p = ruta_en(dir, hijos, pasos).push(target.nombre@);
    assert(p.last() == target.nombre@);
    assert(es_target_en(dir, con_manifiesto, hijos, pasos, k, p));
    ley_se_encuentran_todos_los_targets(dir, con_manifiesto, hijos, p);
}

/// ¿Son los pasos los de esa cadena de directorios?
spec fn siguen(hijos: Seq<Directorio>, pasos: Seq<int>, cadena: Seq<Directorio>) -> bool
    decreases pasos.len(),
{
    &&& pasos.len() == cadena.len()
    &&& pasos.len() > 0 ==> {
        &&& 0 <= pasos[0] < hijos.len()
        &&& hijos[pasos[0]] == cadena[0]
        &&& siguen(cadena[0].hijos@, pasos.drop_first(), cadena.drop_first())
    }
}

/// Los pasos que siguen una cadena de directorios.
proof fn lemma_pasos_de(
    con_manifiesto: bool,
    hijos: Seq<Directorio>,
    cadena: Seq<Directorio>,
) -> (pasos: Seq<int>)
    requires
        forall|k: int|
            0 <= k < cadena.len() ==> (#[trigger] cadena[k]).es_dir && se_explora(
                cadena[k].nombre@,
            ),
        cadena.len() > 0 ==> hijos.contains(cadena[0]),
        forall|k: int|
            0 <= k < cadena.len() - 1 ==> (#[trigger] cadena[k]).hijos@.contains(cadena[k + 1]),
    ensures
        pasos.len() == cadena.len(),
        siguen(hijos, pasos, cadena),
        se_llega(hijos, pasos),
        cadena.len() == 0 ==> contenido_en(hijos, pasos) == hijos && manifiesto_en(
            con_manifiesto,
            hijos,
            pasos,
        ) == con_manifiesto,
        cadena.len() > 0 ==> contenido_en(hijos, pasos) == cadena.last().hijos@ && manifiesto_en(
            con_manifiesto,
            hijos,
            pasos,
        ) == cadena.last().con_manifiesto,
    decreases cadena.len(),
{
    if cadena.len() == 0 {
        Seq::empty()
    } else {
        let i = choose|i: int| 0 <= i < hijos.len() && hijos[i] == cadena[0];
        let cola = cadena.drop_first();
        assert forall|k: int| 0 <= k < cola.len() implies (#[trigger] cola[k]).es_dir
            && se_explora(cola[k].nombre@) by {
            assert(cola[k] == cadena[k + 1]);
        }
        assert forall|k: int| 0 <= k < cola.len() - 1 implies (
        #[trigger] cola[k]).hijos@.contains(cola[k + 1]) by {
            assert(cola[k] == cadena[k + 1] && cola[k + 1] == cadena[k + 1 + 1]);
        }
        if cola.len() > 0 {
            assert(cadena[0].hijos@.contains(cadena[1]));
        }
        let resto = lemma_pasos_de(cadena[0].con_manifiesto, cadena[0].hijos@, cola);
        let pasos = seq![i] + resto;
        assert(pasos.drop_first() =~= resto);
        assert(cola.len() > 0 ==> cola.last() == cadena.last());
        pasos
    }
}

/// La ruta a la que llevan unos pasos es la de los nombres por los que pasan.
proof fn lemma_ruta_de_los_pasos(
    dir: Seq<Seq<u8>>,
    hijos: Seq<Directorio>,
    pasos: Seq<int>,
    cadena: Seq<Directorio>,
)
    requires
        siguen(hijos, pasos, cadena),
    ensures
        ruta_en(dir, hijos, pasos) == dir + cadena.map_values(|x: Directorio| x.nombre@),
    decreases cadena.len(),
{
    let nombres = cadena.map_values(|x: Directorio| x.nombre@);
    if cadena.len() == 0 {
        assert(dir + nombres =~= dir);
    } else {
        let cola = cadena.drop_first();
        lemma_ruta_de_los_pasos(
            dir.push(cadena[0].nombre@),
            cadena[0].hijos@,
            pasos.drop_first(),
            cola,
        );
        assert(dir.push(cadena[0].nombre@) + cola.map_values(|x: Directorio| x.nombre@) =~= dir
            + nombres);
    }
}

/// La cadena de directorios por la que llevan unos pasos.
proof fn lemma_cadena_de(
    con_manifiesto: bool,
    hijos: Seq<Directorio>,
    pasos: Seq<int>,
) -> (cadena: Seq<Directorio>)
    requires
        se_llega(hijos, pasos),
    ensures
        siguen(hijos, pasos, cadena),
        forall|k: int|
            0 <= k < cadena.len() ==> (#[trigger] cadena[k]).es_dir && se_explora(
                cadena[k].nombre@,
            ),
        cadena.len() > 0 ==> hijos.contains(cadena[0]),
        forall|k: int|
            0 <= k < cadena.len() - 1 ==> (#[trigger] cadena[k]).hijos@.contains(cadena[k + 1]),
        cadena.len() == 0 ==> contenido_en(hijos, pasos) == hijos && manifiesto_en(
            con_manifiesto,
            hijos,
            pasos,
        ) == con_manifiesto,
        cadena.len() > 0 ==> contenido_en(hijos, pasos) == cadena.last().hijos@ && manifiesto_en(
            con_manifiesto,
            hijos,
            pasos,
        ) == cadena.last().con_manifiesto,
    decreases pasos.len(),
{
    if pasos.len() == 0 {
        Seq::empty()
    } else {
        let x = hijos[pasos[0]];
        let cola = lemma_cadena_de(x.con_manifiesto, x.hijos@, pasos.drop_first());
        let cadena = seq![x] + cola;
        assert(cadena.drop_first() =~= cola);
        assert(cola.len() > 0 ==> cola.last() == cadena.last());
        assert forall|k: int| 0 <= k < cadena.len() implies (#[trigger] cadena[k]).es_dir
            && se_explora(cadena[k].nombre@) by {
            if k > 0 {
                assert(cadena[k] == cola[k - 1]);
            }
        }
        assert forall|k: int| 0 <= k < cadena.len() - 1 implies (
        #[trigger] cadena[k]).hijos@.contains(cadena[k + 1]) by {
            if k > 0 {
                assert(cadena[k] == cola[k - 1] && cadena[k + 1] == cola[k - 1 + 1]);
            }
        }
        cadena
    }
}

/// Y no se encuentra nada más: lo que se encuentra es un directorio que se llama
/// `target`, con la marca de Cargo o un `Cargo.toml` al lado, y está en la carpeta o a
/// no más de cinco directorios de ella en los que se busca.
pub proof fn ley_no_se_encuentran_otros_targets(
    dir: Seq<Seq<u8>>,
    con_manifiesto: bool,
    hijos: Seq<Directorio>,
    p: Seq<Seq<u8>>,
) -> (r: (Seq<Directorio>, Directorio))
    requires
        encontrados(dir, con_manifiesto, hijos, hijos.len(), 0).contains(p),
    ensures
        ({
            let (cadena, target) = r;
            &&& cadena.len() <= 5
            &&& forall|k: int|
                0 <= k < cadena.len() ==> (#[trigger] cadena[k]).es_dir && se_explora(
                    cadena[k].nombre@,
                )
            &&& cadena.len() > 0 ==> hijos.contains(cadena[0])
            &&& forall|k: int|
                0 <= k < cadena.len() - 1 ==> (#[trigger] cadena[k]).hijos@.contains(cadena[k + 1])
            &&& cadena.len() == 0 ==> hijos.contains(target) && (target.con_marca || con_manifiesto)
            &&& cadena.len() > 0 ==> cadena.last().hijos@.contains(target) && (target.con_marca
                || cadena.last().con_manifiesto)
            &&& target.es_dir
            &&& target.nombre@ == encode_utf8("target"@)
            &&& p == (dir + cadena.map_values(|x: Directorio| x.nombre@)).push(target.nombre@)
        }),
{
    ley_se_encuentran_todos_los_targets(dir, con_manifiesto, hijos, p);
    let (pasos, k) = choose|pasos: Seq<int>, k: int|
        pasos.len() <= PROFUNDIDAD && #[trigger] es_target_en(
            dir,
            con_manifiesto,
            hijos,
            pasos,
            k,
            p,
        );
    let cadena = lemma_cadena_de(con_manifiesto, hijos, pasos);
    lemma_ruta_de_los_pasos(dir, hijos, pasos, cadena);
    let target = contenido_en(hijos, pasos)[k];
    texto::ley_los_nombres_son_utf8(target.nombre@, "target"@);
    (cadena, target)
}

/// Lo que se encuentra es lo de cada elemento, uno detrás de otro y una sola vez: un
/// elemento más al final de un directorio sólo añade lo suyo, y por debajo de cinco
/// directorios no se busca.
pub proof fn ley_cada_elemento_aporta_lo_suyo(
    dir: Seq<Seq<u8>>,
    con_manifiesto: bool,
    hijos: Seq<Directorio>,
    x: Directorio,
    depth: nat,
)
    ensures
        ({
            let antes = encontrados(dir, con_manifiesto, hijos, hijos.len(), depth);
            let mas = hijos.push(x);
            let todos = encontrados(dir, con_manifiesto, mas, mas.len(), depth);
            let es_target = x.nombre@ == encode_utf8("target"@);
            &&& hijos.len() == 0 ==> antes.len() == 0
            &&& depth > 5 ==> antes.len() == 0
            &&& !x.es_dir ==> todos == antes
            &&& es_target && !x.con_marca && !con_manifiesto ==> todos == antes
            &&& depth <= 5 && x.es_dir && es_target && (x.con_marca || con_manifiesto) ==> todos
                == antes.push(dir.push(x.nombre@))
            &&& !es_target && !se_explora(x.nombre@) ==> todos == antes
            &&& depth <= 5 && x.es_dir && se_explora(x.nombre@) ==> todos == antes + encontrados(
                dir.push(x.nombre@),
                x.con_manifiesto,
                x.hijos@,
                x.hijos@.len(),
                depth + 1,
            )
        }),
{
    texto::ley_los_nombres_son_utf8(x.nombre@, "target"@);
    let mas = hijos.push(x);
    lemma_solo_los_primeros(dir, con_manifiesto, hijos, mas, hijos.len(), depth);
    assert(mas[mas.len() - 1] == x);
    assert(dir.push(x.nombre@).last() == x.nombre@);
}

/// De los primeros elementos sale lo mismo, haya los que haya detrás.
proof fn lemma_solo_los_primeros(
    dir: Seq<Seq<u8>>,
    con_manifiesto: bool,
    a: Seq<Directorio>,
    b: Seq<Directorio>,
    n: nat,
    depth: nat,
)
    requires
        n <= a.len() <= b.len(),
        forall|i: int| 0 <= i < a.len() ==> a[i] == #[trigger] b[i],
    ensures
        encontrados(dir, con_manifiesto, a, n, depth) == encontrados(
            dir,
            con_manifiesto,
            b,
            n,
            depth,
        ),
    decreases n,
{
    if n > 0 && depth <= PROFUNDIDAD {
        lemma_solo_los_primeros(dir, con_manifiesto, a, b, (n - 1) as nat, depth);
        assert(a[n - 1] == b[n - 1]);
    }
}

/// El proyecto de un `target/` que no cuelga de la carpeta se muestra con la ruta entera
/// de su raíz.
pub proof fn ley_el_proyecto_ajeno_se_nombra_entero(
    base: Seq<Seq<u8>>,
    nombres: Seq<Seq<char>>,
    target: Seq<u8>,
)
    requires
        !ruta::cuelga_de(ruta::codificados(nombres), base),
    ensures
        nombre_de_proyecto(base, ruta::codificados(nombres).push(target)) == "/"@ + texto::unidos(
            nombres,
            "/"@,
        ),
{
    let raiz = ruta::codificados(nombres);
    assert(raiz.push(target).drop_last() =~= raiz);
    perfiles::ley_la_etiqueta_de_lo_ajeno(base, nombres);
    reveal_strlit("/");
}

/// El nombre de un proyecto es la etiqueta de su raíz o, si es vacía, el último nombre
/// de la raíz; sólo la raíz del sistema se queda sin nombre.
pub proof fn ley_el_nombre_de_cualquier_proyecto(
    base: Seq<Seq<u8>>,
    raiz: Seq<Seq<u8>>,
    ultimo: Seq<u8>,
    target: Seq<u8>,
)
    ensures
        ({
            let nombre = perfiles::etiqueta(base, raiz);
            nombre.len() > 0 ==> nombre_de_proyecto(base, raiz.push(target)) == nombre
        }),
        ({
            let carpeta = raiz.push(ultimo);
            nombre_de_proyecto(carpeta, carpeta.push(target)) == texto::mostrado(ultimo)
        }),
        nombre_de_proyecto(Seq::empty(), seq![target]).len() == 0,
{
    let nada = Seq::<Seq<u8>>::empty();
    let carpeta = raiz.push(ultimo);
    assert(raiz.push(target).drop_last() =~= raiz);
    assert(carpeta.push(target).drop_last() =~= carpeta);
    assert(seq![target].drop_last() =~= nada);
    assert(carpeta + nada =~= carpeta);
    assert(nada + nada =~= nada);
    perfiles::ley_la_etiqueta_de_cualquier_ruta(carpeta, nada);
    perfiles::ley_la_etiqueta_de_cualquier_ruta(nada, nada);
    texto::ley_como_se_muestran_los_bytes(Seq::empty(), Seq::empty());
    assert(encode_utf8(Seq::empty()) =~= Seq::<u8>::empty());
}

} // verus!
