//! Los paquetes del workspace, tal como los da `cargo metadata`.

use crate::conjunto::{Conjunto, Miembros};
use crate::json::{self, ArbolJson, JsonInvalido};
use crate::mark;
use crate::ruta::Ruta;
use crate::texto;
use vstd::prelude::*;
use vstd::string::*;

verus! {

/// Un paquete: su nombre y los de sus targets, donde los haya.
pub struct Paquete {
    pub nombre: Option<String>,
    pub targets: Vec<Option<String>>,
}

/// Lo que dice un paquete, como valor matemático.
#[verifier::ext_equal]
pub struct PaqueteVisto {
    pub nombre: Option<Seq<char>>,
    pub targets: Seq<Option<Seq<char>>>,
}

/// Un nombre, donde lo haya.
pub open spec fn nombre_visto(nombre: Option<String>) -> Option<Seq<char>> {
    match nombre {
        Some(n) => Some(n@),
        None => None,
    }
}

/// Las vistas de unos nombres.
pub open spec fn nombres_vistos(nombres: Seq<Option<String>>) -> Seq<Option<Seq<char>>> {
    nombres.map_values(|n: Option<String>| nombre_visto(n))
}

impl View for Paquete {
    type V = PaqueteVisto;

    open spec fn view(&self) -> PaqueteVisto {
        PaqueteVisto {
            nombre: nombre_visto(self.nombre),
            targets: nombres_vistos(self.targets@),
        }
    }
}

/// Las vistas de unos paquetes.
pub open spec fn paquetes_vistos(paquetes: Seq<Paquete>) -> Seq<PaqueteVisto> {
    paquetes.map_values(|p: Paquete| p@)
}

/// ¿Hay un target con ese nombre, una vez normalizado?
pub open spec fn declara(targets: Seq<Option<Seq<char>>>, nombre: Seq<char>) -> bool {
    exists|i: int|
        0 <= i < targets.len() && (#[trigger] targets[i]) is Some && mark::normalizado(
            targets[i]->0,
        ) == nombre
}

/// Los nombres de los targets, normalizados.
pub open spec fn targets_declarados(targets: Seq<Option<Seq<char>>>) -> Set<Seq<char>> {
    Set::new(|nombre: Seq<char>| declara(targets, nombre))
}

/// Los paquetes con nombre y los targets que declaran; de dos con el mismo nombre
/// vale el último.
pub open spec fn miembros_de(paquetes: Seq<PaqueteVisto>) -> Map<Seq<char>, Set<Seq<char>>>
    decreases paquetes.len(),
{
    if paquetes.len() == 0 {
        Map::empty()
    } else {
        match paquetes.last().nombre {
            Some(nombre) => miembros_de(paquetes.drop_last()).insert(
                nombre,
                targets_declarados(paquetes.last().targets),
            ),
            None => miembros_de(paquetes.drop_last()),
        }
    }
}

fn reunir_targets(targets: &Vec<Option<String>>) -> (r: Conjunto)
    ensures
        r@ == targets_declarados(nombres_vistos(targets@)),
{
    let ghost vistos = nombres_vistos(targets@);
    let mut r = Conjunto::new();
    assert(r@ =~= targets_declarados(vistos.take(0)));
    for i in 0..targets.len()
        invariant
            vistos == nombres_vistos(targets@),
            r@ == targets_declarados(vistos.take(i as int)),
    {
        let ghost antes = vistos.take(i as int);
        let ghost ahora = vistos.take(i + 1);
        assert(ahora =~= antes.push(nombre_visto(targets@[i as int])));
        proof {
            assert forall|nombre: Seq<char>| declara(antes, nombre) implies declara(
                ahora,
                nombre,
            ) by {
                let k = choose|k: int|
                    0 <= k < antes.len() && (#[trigger] antes[k]) is Some && mark::normalizado(
                        antes[k]->0,
                    ) == nombre;
                assert(ahora[k] == antes[k]);
            }
            assert forall|nombre: Seq<char>| declara(ahora, nombre) implies declara(antes, nombre)
                || (targets@[i as int] is Some && mark::normalizado(targets@[i as int]->0@)
                == nombre) by {
                let k = choose|k: int|
                    0 <= k < ahora.len() && (#[trigger] ahora[k]) is Some && mark::normalizado(
                        ahora[k]->0,
                    ) == nombre;
                assert(k < i ==> antes[k] == ahora[k]);
            }
        }
        match &targets[i] {
            Some(t) => {
                let n = mark::normalizar(t.as_str());
                assert(ahora[i as int] == Some(t@));
                assert(declara(ahora, n@));
                let ghost conjunto = targets_declarados(antes).insert(n@);
                let _ = r.insert(n);
                assert(conjunto =~= targets_declarados(ahora));
            },
            None => {
                assert(targets_declarados(antes) =~= targets_declarados(ahora));
            },
        }
    }
    assert(vistos.take(vistos.len() as int) =~= vistos);
    r
}

/// Reúne los paquetes con los targets que declara cada uno.
pub fn reunir_miembros(paquetes: &Vec<Paquete>) -> (r: Miembros)
    ensures
        r@ == miembros_de(paquetes_vistos(paquetes@)),
{
    let ghost vistos = paquetes_vistos(paquetes@);
    let mut r = Miembros::new();
    for i in 0..paquetes.len()
        invariant
            vistos == paquetes_vistos(paquetes@),
            r@ == miembros_de(vistos.take(i as int)),
    {
        let p = &paquetes[i];
        assert(vistos.take(i + 1).drop_last() =~= vistos.take(i as int));
        assert(vistos.take(i + 1).last() == p@);
        if let Some(nombre) = &p.nombre {
            r.insert(nombre.clone(), reunir_targets(&p.targets));
        }
    }
    assert(vistos.take(vistos.len() as int) =~= vistos);
    r
}

/// El paquete que describe un elemento de `packages`.
pub open spec fn paquete_en(arbol: ArbolJson) -> PaqueteVisto {
    PaqueteVisto {
        nombre: json::campo_de_texto(arbol, "name"@),
        targets: json::campo_de_lista(arbol, "targets"@).map_values(
            |t: ArbolJson| json::campo_de_texto(t, "name"@),
        ),
    }
}

/// Los paquetes que describe la salida de `cargo metadata`.
pub open spec fn paquetes_en(arbol: ArbolJson) -> Seq<PaqueteVisto> {
    json::campo_de_lista(arbol, "packages"@).map_values(|p: ArbolJson| paquete_en(p))
}

fn leer_targets(valores: &Vec<serde_json::Value>) -> (r: Vec<Option<String>>)
    ensures
        nombres_vistos(r@) == json::contenidos(valores@).map_values(
            |t: ArbolJson| json::campo_de_texto(t, "name"@),
        ),
{
    let mut r: Vec<Option<String>> = Vec::new();
    let ghost esperados = json::contenidos(valores@).map_values(
        |t: ArbolJson| json::campo_de_texto(t, "name"@),
    );
    for i in 0..valores.len()
        invariant
            esperados == json::contenidos(valores@).map_values(
                |t: ArbolJson| json::campo_de_texto(t, "name"@),
            ),
            nombres_vistos(r@) == esperados.take(i as int),
    {
        let ghost antes = r@;
        let nombre = json::obtener_texto(&valores[i], "name");
        assert(nombre_visto(nombre) == esperados[i as int]);
        r.push(nombre);
        assert(nombres_vistos(r@) =~= nombres_vistos(antes).push(esperados[i as int]));
        assert(esperados.take(i + 1) =~= esperados.take(i as int).push(esperados[i as int]));
    }
    assert(esperados.take(esperados.len() as int) =~= esperados);
    r
}

fn leer_paquetes(valores: &Vec<serde_json::Value>) -> (r: Vec<Paquete>)
    ensures
        paquetes_vistos(r@) == json::contenidos(valores@).map_values(|p: ArbolJson| paquete_en(p)),
{
    let mut r: Vec<Paquete> = Vec::new();
    let ghost esperados = json::contenidos(valores@).map_values(|p: ArbolJson| paquete_en(p));
    for i in 0..valores.len()
        invariant
            esperados == json::contenidos(valores@).map_values(|p: ArbolJson| paquete_en(p)),
            paquetes_vistos(r@) == esperados.take(i as int),
    {
        let ghost antes = r@;
        let valor = &valores[i];
        let targets: Vec<Option<String>> = match json::obtener_lista(valor, "targets") {
            Some(ts) => leer_targets(ts),
            None => Vec::new(),
        };
        let p = Paquete { nombre: json::obtener_texto(valor, "name"), targets };
        let ghost visto = p@;
        assert(visto.targets =~= esperados[i as int].targets);
        assert(visto =~= esperados[i as int]);
        r.push(p);
        assert(paquetes_vistos(r@) =~= paquetes_vistos(antes).push(visto));
        assert(esperados.take(i + 1) =~= esperados.take(i as int).push(esperados[i as int]));
    }
    assert(esperados.take(esperados.len() as int) =~= esperados);
    r
}

/// Los paquetes del workspace y, por cada uno, los targets que declara hoy.
///
/// `.fingerprint/` no contiene ninguna de las dos cosas y ambas hacen falta:
///
/// - Qué crates son propios, porque son los que aportan raíces al grafo.
/// - Qué targets siguen declarados, porque una unidad huérfana —un binario
///   renombrado, un test de integración borrado— formaría si no un grupo de un
///   solo miembro que se auto-declara raíz y nunca se recolecta.
///
/// `salida` es lo que imprimió `cargo metadata`, si se pudo ejecutar y terminó bien.
pub fn workspace_members(salida: Option<&Vec<u8>>) -> (r: Result<Miembros, JsonInvalido>)
    ensures
        match salida {
            Some(bytes) => match json::leido_de_bytes(bytes@) {
                Some(arbol) => match r {
                    Ok(miembros) => miembros@ == miembros_de(paquetes_en(arbol)),
                    Err(_) => false,
                },
                None => r is Err,
            },
            None => match r {
                Ok(miembros) => miembros@ == Map::<Seq<char>, Set<Seq<char>>>::empty(),
                Err(_) => false,
            },
        },
{
    let bytes = match salida {
        Some(bytes) => bytes,
        None => {
            return Ok(Miembros::new());
        },
    };
    let valor = match json::leer_bytes(bytes) {
        Ok(valor) => valor,
        Err(causa) => {
            return Err(JsonInvalido { causa });
        },
    };
    match json::obtener_lista(&valor, "packages") {
        Some(paquetes) => Ok(reunir_miembros(&leer_paquetes(paquetes))),
        None => {
            assert(paquetes_en(json::contenido(valor)) =~= Seq::<PaqueteVisto>::empty());
            Ok(Miembros::new())
        },
    }
}

/// La raíz del proyecto al que pertenece un `target/`: el directorio que lo
/// contiene.
pub open spec fn raiz_de(target: Seq<Seq<u8>>) -> Seq<Seq<u8>> {
    if target.len() > 0 {
        target.drop_last()
    } else {
        target
    }
}

/// La raíz del proyecto al que pertenece un `target/`.
pub fn raiz_del_proyecto(target: &Ruta) -> (r: Ruta)
    ensures
        r@ == raiz_de(target@),
{
    match target.parent() {
        Some(padre) => padre,
        None => target.clone(),
    }
}

/// Un paquete está si y sólo si alguno lleva su nombre.
pub proof fn ley_los_miembros_son_los_que_tienen_nombre(
    paquetes: Seq<PaqueteVisto>,
    nombre: Seq<char>,
)
    ensures
        miembros_de(paquetes).contains_key(nombre) <==> exists|i: int|
            0 <= i < paquetes.len() && (#[trigger] paquetes[i]).nombre == Some(nombre),
    decreases paquetes.len(),
{
    if paquetes.len() > 0 {
        let antes = paquetes.drop_last();
        ley_los_miembros_son_los_que_tienen_nombre(antes, nombre);
        if exists|i: int| 0 <= i < antes.len() && (#[trigger] antes[i]).nombre == Some(nombre) {
            let i = choose|i: int|
                0 <= i < antes.len() && (#[trigger] antes[i]).nombre == Some(nombre);
            assert(paquetes[i].nombre == Some(nombre));
        }
        if exists|i: int| 0 <= i < paquetes.len() && (#[trigger] paquetes[i]).nombre == Some(
            nombre,
        ) {
            let i = choose|i: int|
                0 <= i < paquetes.len() && (#[trigger] paquetes[i]).nombre == Some(nombre);
            if i < antes.len() {
                assert(antes[i].nombre == Some(nombre));
            }
        }
        assert(paquetes[paquetes.len() - 1] == paquetes.last());
    }
}

/// Todo target se declara, con los guiones convertidos en guiones bajos si los tiene
/// y tal cual si no; y no se declara nada más.
pub proof fn ley_todo_target_se_declara(
    targets: Seq<Option<Seq<char>>>,
    i: int,
    nombre: Seq<char>,
)
    ensures
        0 <= i < targets.len() && targets[i] is Some ==> targets_declarados(targets).contains(
            texto::cambiado(targets[i]->0, '-', '_'),
        ),
        0 <= i < targets.len() && targets[i] is Some && !(targets[i]->0).contains('-')
            ==> targets_declarados(targets).contains(targets[i]->0),
        targets_declarados(targets).contains(nombre) ==> exists|j: int|
            0 <= j < targets.len() && (#[trigger] targets[j]) is Some && texto::cambiado(
                targets[j]->0,
                '-',
                '_',
            ) == nombre,
{
    if 0 <= i < targets.len() && targets[i] is Some {
        let t = targets[i]->0;
        assert(declara(targets, mark::normalizado(t)));
        if !t.contains('-') {
            assert forall|k: int| 0 <= k < t.len() implies t[k] != '-' by {
                assert(t.contains(t[k]));
            }
            assert(texto::cambiado(t, '-', '_') =~= t);
        }
    }
}

/// Cada paquete con nombre queda con los targets que declara, sin tocar los demás; de
/// dos con el mismo nombre vale el último, y el que no tiene nombre no cuenta.
pub proof fn ley_cada_paquete_con_sus_targets(
    paquetes: Seq<PaqueteVisto>,
    p: PaqueteVisto,
    otro: Seq<char>,
)
    ensures
        miembros_de(Seq::empty()) == Map::<Seq<char>, Set<Seq<char>>>::empty(),
        p.nombre is None ==> miembros_de(paquetes.push(p)) == miembros_de(paquetes),
        p.nombre matches Some(n) ==> {
            let m = miembros_de(paquetes.push(p));
            &&& m.contains_key(n)
            &&& m[n] == targets_declarados(p.targets)
            &&& otro != n ==> (m.contains_key(otro) <==> miembros_de(paquetes).contains_key(otro))
            &&& otro != n && m.contains_key(otro) ==> m[otro] == miembros_de(paquetes)[otro]
        },
{
    assert(paquetes.push(p).drop_last() =~= paquetes);
}

/// Los paquetes de la salida de `cargo metadata` son los elementos de `packages`, por
/// orden: su nombre es su `name`, y sus targets los `name` de sus `targets`.
pub proof fn ley_los_paquetes_son_los_de_packages(
    raiz: Map<Seq<char>, ArbolJson>,
    lista: Seq<ArbolJson>,
    i: int,
    k: int,
)
    requires
        raiz.contains_key("packages"@),
        raiz["packages"@] == ArbolJson::Lista(lista),
    ensures
        ({
            let paquetes = paquetes_en(ArbolJson::Objeto(raiz));
            &&& paquetes.len() == lista.len()
            &&& 0 <= i < lista.len() && !(lista[i] is Objeto) ==> paquetes[i].nombre is None
                && paquetes[i].targets.len() == 0
            &&& 0 <= i < lista.len() && lista[i] is Objeto ==> {
                let o = lista[i]->Objeto_0;
                &&& o.contains_key("name"@) && o["name"@] is Texto ==> paquetes[i].nombre == Some(
                    o["name"@]->Texto_0,
                )
                &&& !(o.contains_key("name"@) && o["name"@] is Texto) ==> paquetes[i].nombre is None
                &&& !(o.contains_key("targets"@) && o["targets"@] is Lista)
                    ==> paquetes[i].targets.len() == 0
                &&& o.contains_key("targets"@) && o["targets"@] is Lista ==> {
                    let ts = o["targets"@]->Lista_0;
                    &&& paquetes[i].targets.len() == ts.len()
                    &&& 0 <= k < ts.len() ==> match ts[k] {
                        ArbolJson::Objeto(t) => {
                            &&& t.contains_key("name"@) && t["name"@] is Texto
                                ==> paquetes[i].targets[k] == Some(t["name"@]->Texto_0)
                            &&& !(t.contains_key("name"@) && t["name"@] is Texto)
                                ==> paquetes[i].targets[k] is None
                        },
                        _ => paquetes[i].targets[k] is None,
                    }
                }
            }
        }),
{
}

/// Sin una lista `packages` no hay paquetes.
pub proof fn ley_sin_packages_no_hay_paquetes(arbol: ArbolJson)
    requires
        !(arbol is Objeto) || !(arbol->Objeto_0.contains_key("packages"@)) || !(
        arbol->Objeto_0["packages"@] is Lista),
    ensures
        paquetes_en(arbol).len() == 0,
{
}

/// De la salida de `cargo metadata` a los targets: si el último paquete de `packages`
/// con ese nombre tiene un target, el workspace lo declara.
pub proof fn ley_el_workspace_declara_sus_targets(
    raiz: Map<Seq<char>, ArbolJson>,
    lista: Seq<ArbolJson>,
    paquete: Map<Seq<char>, ArbolJson>,
    nombre: Seq<char>,
    targets: Seq<ArbolJson>,
    k: int,
    target: Map<Seq<char>, ArbolJson>,
    t: Seq<char>,
)
    requires
        raiz.contains_key("packages"@),
        raiz["packages"@] == ArbolJson::Lista(lista.push(ArbolJson::Objeto(paquete))),
        paquete.contains_key("name"@),
        paquete["name"@] == ArbolJson::Texto(nombre),
        paquete.contains_key("targets"@),
        paquete["targets"@] == ArbolJson::Lista(targets),
        0 <= k < targets.len(),
        targets[k] == ArbolJson::Objeto(target),
        target.contains_key("name"@),
        target["name"@] == ArbolJson::Texto(t),
    ensures
        ({
            let m = miembros_de(paquetes_en(ArbolJson::Objeto(raiz)));
            &&& m.contains_key(nombre)
            &&& m[nombre].contains(texto::cambiado(t, '-', '_'))
            &&& !t.contains('-') ==> m[nombre].contains(t)
        }),
{
    let todos = lista.push(ArbolJson::Objeto(paquete));
    let paquetes = paquetes_en(ArbolJson::Objeto(raiz));
    ley_los_paquetes_son_los_de_packages(raiz, todos, lista.len() as int, k);
    let p = paquetes.last();
    assert(paquetes =~= paquetes.drop_last().push(p));
    ley_cada_paquete_con_sus_targets(paquetes.drop_last(), p, nombre);
    ley_todo_target_se_declara(p.targets, k, t);
}

/// La raíz de un proyecto es el directorio que contiene a su `target/`.
pub proof fn ley_la_raiz_contiene_al_target(raiz: Seq<Seq<u8>>, target: Seq<u8>)
    ensures
        raiz_de(raiz.push(target)) == raiz,
        raiz_de(Seq::empty()) == Seq::<Seq<u8>>::empty(),
{
    assert(raiz.push(target).drop_last() =~= raiz);
}

/// Unos paquetes se ven uno a uno, cada uno con su nombre y los de sus targets, donde
/// los haya.
pub proof fn ley_los_paquetes_se_ven_como_son(paquetes: Seq<Paquete>, i: int, k: int)
    ensures
        paquetes_vistos(paquetes).len() == paquetes.len(),
        0 <= i < paquetes.len() ==> {
            let p = paquetes_vistos(paquetes)[i];
            &&& match paquetes[i].nombre {
                Some(n) => p.nombre == Some(n@),
                None => p.nombre is None,
            }
            &&& p.targets.len() == paquetes[i].targets@.len()
            &&& 0 <= k < p.targets.len() ==> match paquetes[i].targets@[k] {
                Some(t) => p.targets[k] == Some(t@),
                None => p.targets[k] is None,
            }
        },
{
}

} // verus!
