//! Lo que se le cuenta al usuario, línea a línea.

use crate::artefacto::Report;
use crate::cli::Opciones;
use crate::fecha::{self, Instante};
use crate::mark::Vivos;
use crate::proceso::{Totales, TotalesVistos};
use crate::sweep::{self, EntradaVista, Entry, Mode, Plan, PlanVista, TRASH_DIR};
use crate::tamano;
use crate::texto;
use vstd::prelude::*;
use vstd::string::*;

verus! {

/// Un tamaño alineado a la derecha.
pub open spec fn columna(bytes: nat, ancho: nat) -> Seq<char> {
    texto::a_la_derecha(tamano::tamano(bytes), ancho, ' ')
}

fn en_columna(bytes: u64, ancho: usize) -> (r: String)
    ensures
        r@ == columna(bytes as nat, ancho as nat),
{
    texto::alinear_derecha(tamano::human(bytes).as_str(), ancho, ' ')
}

/// Pone una línea al final.
fn poner(lineas: &mut Vec<String>, linea: String)
    ensures
        texto::vistas(final(lineas)@) == texto::vistas(old(lineas)@).push(linea@),
{
    let ghost antes = lineas@;
    lineas.push(linea);
    assert(texto::vistas(lineas@) =~= texto::vistas(antes).push(linea@));
}

/// El aviso de que podar configuraciones por antigüedad es inseguro.
pub open spec fn aviso_escrito(keep_configs: nat) -> Seq<Seq<char>> {
    seq![
        "⚠ --keep-configs "@ + texto::decimal(keep_configs)
            + ": se descartarán configuraciones del workspace por antigüedad."@,
        "  Si la que construyes a continuación es una de ellas, el build recompila entero."@,
    ]
}

/// El aviso de que podar configuraciones por antigüedad es inseguro.
pub fn aviso_de_poda(keep_configs: usize) -> (r: Vec<String>)
    ensures
        texto::vistas(r@) == aviso_escrito(keep_configs as nat),
{
    let mut linea: String = "⚠ --keep-configs ".to_owned();
    linea.append(texto::escribir_decimal(keep_configs as u64).as_str());
    linea.append(": se descartarán configuraciones del workspace por antigüedad.");
    let mut r: Vec<String> = Vec::new();
    poner(&mut r, linea);
    poner(
        &mut r,
        "  Si la que construyes a continuación es una de ellas, el build recompila entero.".to_owned(),
    );
    assert(texto::vistas(r@) =~= aviso_escrito(keep_configs as nat));
    r
}

/// La línea de un proyecto cuando se recorren varios.
pub open spec fn proyecto_escrito(nombre: Seq<char>, plan: nat) -> Seq<char> {
    "  "@ + texto::a_la_izquierda(nombre, 44, ' ') + " "@ + columna(plan, 10)
}

/// La línea de un proyecto cuando se recorren varios; ninguna si no hay nada que
/// recuperar de él, o si lo que se pidió es la lista de lo muerto.
pub fn linea_de_proyecto(nombre: &str, plan: u64, opts: &Opciones) -> (r: Option<String>)
    ensures
        match r {
            Some(linea) => !opts.detallado && !opts.list_dead && plan > 0 && linea@
                == proyecto_escrito(nombre@, plan as nat),
            None => opts.detallado || opts.list_dead || plan == 0,
        },
{
    if opts.detallado || opts.list_dead || plan == 0 {
        return None;
    }
    let mut linea: String = "  ".to_owned();
    linea.append(texto::alinear_izquierda(nombre, 44, ' ').as_str());
    linea.append(" ");
    linea.append(en_columna(plan, 10).as_str());
    Some(linea)
}

/// Lo que se dice del grafo; el porcentaje de aristas resueltas llega ya escrito.
pub open spec fn grafo_escrito(
    resueltas: nat,
    total: nat,
    porcentaje: Seq<char>,
    raices: nat,
    vivas: nat,
) -> Seq<char> {
    "grafo: "@ + texto::decimal(resueltas) + "/"@ + texto::decimal(total)
        + " aristas resueltas ("@ + porcentaje + "%) · "@ + texto::decimal(raices)
        + " raíces -> "@ + texto::decimal(vivas) + " unidades vivas"@
}

/// Lo que se dice del conjunto vivo; el porcentaje de aristas resueltas llega ya
/// escrito.
pub fn lineas_de_vivos(vivos: &Vivos, porcentaje: &str) -> (r: Vec<String>)
    ensures
        ({
            let vistas = texto::vistas(r@);
            &&& vistas.len() == if vivos.anchor is Some {
                2nat
            } else {
                1nat
            }
            &&& vistas[0] == grafo_escrito(
                vivos.edges_resolved as nat,
                vivos.edges_total as nat,
                porcentaje@,
                vivos.roots as nat,
                vivos.reachable as nat,
            )
            &&& vivos.anchor is Some ==> es_actividad(vistas[1], vivos.anchor->0)
        }),
{
    let mut linea: String = "grafo: ".to_owned();
    linea.append(texto::escribir_decimal(vivos.edges_resolved as u64).as_str());
    linea.append("/");
    linea.append(texto::escribir_decimal(vivos.edges_total as u64).as_str());
    linea.append(" aristas resueltas (");
    linea.append(porcentaje);
    linea.append("%) · ");
    linea.append(texto::escribir_decimal(vivos.roots as u64).as_str());
    linea.append(" raíces -> ");
    linea.append(texto::escribir_decimal(vivos.reachable as u64).as_str());
    linea.append(" unidades vivas");
    let mut r: Vec<String> = Vec::new();
    poner(&mut r, linea);
    if let Some(t) = vivos.anchor {
        let mut linea: String = "actividad más reciente: ".to_owned();
        let escrita = fecha::fecha(t);
        linea.append(escrita.as_str());
        assert(es_actividad(linea@, t));
        poner(&mut r, linea);
    }
    r
}

/// ¿Es la línea que dice cuándo fue la actividad más reciente?
pub open spec fn es_actividad(linea: Seq<char>, t: Instante) -> bool {
    exists|escrita: Seq<char>|
        #![trigger fecha::es_fecha_de(escrita, t)]
        fecha::es_fecha_de(escrita, t) && linea == "actividad más reciente: "@ + escrita
}

/// Lo que se dice de un perfil.
pub open spec fn informe_escrito(r: Report, label: Seq<char>) -> Seq<Seq<char>> {
    let sin_raices = if r.sin_raices {
        seq!["   sin unidades del workspace: no se toca nada"@]
    } else {
        Seq::empty()
    };
    let huerfanos = if r.huerfanos > 0 {
        seq![
            "   archivos sin hash reconocible: "@ + texto::decimal(r.huerfanos as nat)
                + " (no se tocan)"@,
        ]
    } else {
        Seq::empty()
    };
    seq![""@, "── perfil "@ + label] + sin_raices + seq![
        "   unidades en .fingerprint : "@ + texto::decimal(r.units as nat),
        "   deps/  vivo   "@ + columna(r.live_bytes as nat, 9) + "  ("@ + texto::decimal(
            r.live_files as nat,
        ) + " archivos)"@,
        "   deps/  muerto "@ + columna(r.dead_bytes as nat, 9) + "  ("@ + texto::decimal(
            r.dead_files as nat,
        ) + " archivos)"@,
    ] + huerfanos
}

/// La línea de los archivos vivos o de los muertos.
fn linea_de_archivos(titulo: &str, bytes: u64, archivos: usize) -> (r: String)
    ensures
        r@ == titulo@ + columna(bytes as nat, 9) + "  ("@ + texto::decimal(archivos as nat)
            + " archivos)"@,
{
    let mut linea: String = titulo.to_owned();
    linea.append(en_columna(bytes, 9).as_str());
    linea.append("  (");
    linea.append(texto::escribir_decimal(archivos as u64).as_str());
    linea.append(" archivos)");
    linea
}

/// Lo que se dice de un perfil.
pub fn lineas_de_informe(r: &Report, label: &str) -> (lineas: Vec<String>)
    ensures
        texto::vistas(lineas@) == informe_escrito(*r, label@),
{
    let mut lineas: Vec<String> = Vec::new();
    poner(&mut lineas, "".to_owned());
    let mut titulo: String = "── perfil ".to_owned();
    titulo.append(label);
    poner(&mut lineas, titulo);
    if r.sin_raices {
        poner(&mut lineas, "   sin unidades del workspace: no se toca nada".to_owned());
    }
    let mut unidades: String = "   unidades en .fingerprint : ".to_owned();
    unidades.append(texto::escribir_decimal(r.units as u64).as_str());
    poner(&mut lineas, unidades);
    poner(&mut lineas, linea_de_archivos("   deps/  vivo   ", r.live_bytes, r.live_files));
    poner(&mut lineas, linea_de_archivos("   deps/  muerto ", r.dead_bytes, r.dead_files));
    if r.huerfanos > 0 {
        let mut linea: String = "   archivos sin hash reconocible: ".to_owned();
        linea.append(texto::escribir_decimal(r.huerfanos as u64).as_str());
        linea.append(" (no se tocan)");
        poner(&mut lineas, linea);
    }
    assert(texto::vistas(lineas@) =~= informe_escrito(*r, label@));
    lineas
}

/// La línea de una zona del plan; ninguna si no hay nada que sacar de ella.
pub open spec fn zona_escrita(nombre: Seq<char>, entradas: Seq<EntradaVista>) -> Seq<Seq<char>> {
    if entradas.len() > 0 {
        seq![
            "   · "@ + texto::a_la_izquierda(nombre, 14, ' ') + " "@ + columna(
                sweep::bytes_de(entradas),
                10,
            ) + "  ("@ + texto::decimal(entradas.len()) + " entradas)"@,
        ]
    } else {
        Seq::empty()
    }
}

/// El desglose de lo que el plan va a sacar, por zona del perfil.
pub open spec fn resumen_escrito(plan: PlanVista) -> Seq<Seq<char>> {
    if plan.entradas().len() == 0 {
        Seq::empty()
    } else {
        seq!["   a recolectar:"@] + zona_escrita("deps/"@, plan.deps) + zona_escrita(
            ".fingerprint/"@,
            plan.fingerprints,
        ) + zona_escrita("build/"@, plan.builds) + zona_escrita("incremental/"@, plan.incremental)
            + zona_escrita("codegen .o"@, plan.codegen)
    }
}

fn poner_zona(lineas: &mut Vec<String>, nombre: &str, entradas: &Vec<Entry>)
    requires
        sweep::bytes_de(sweep::entradas_vistas(entradas@)) <= u64::MAX,
    ensures
        texto::vistas(final(lineas)@) == texto::vistas(old(lineas)@) + zona_escrita(
            nombre@,
            sweep::entradas_vistas(entradas@),
        ),
{
    let ghost antes = texto::vistas(lineas@);
    if entradas.len() > 0 {
        let mut linea: String = "   · ".to_owned();
        linea.append(texto::alinear_izquierda(nombre, 14, ' ').as_str());
        linea.append(" ");
        linea.append(en_columna(sweep::sumar_bytes(entradas), 10).as_str());
        linea.append("  (");
        linea.append(texto::escribir_decimal(entradas.len() as u64).as_str());
        linea.append(" entradas)");
        poner(lineas, linea);
    }
    assert(texto::vistas(lineas@) =~= antes + zona_escrita(
        nombre@,
        sweep::entradas_vistas(entradas@),
    ));
}

/// Desglose de lo que el plan va a sacar, por zona del perfil.
pub fn plan_resumen(plan: &Plan) -> (r: Vec<String>)
    requires
        sweep::bytes_de(plan@.deps) <= u64::MAX,
        sweep::bytes_de(plan@.fingerprints) <= u64::MAX,
        sweep::bytes_de(plan@.builds) <= u64::MAX,
        sweep::bytes_de(plan@.incremental) <= u64::MAX,
        sweep::bytes_de(plan@.codegen) <= u64::MAX,
    ensures
        texto::vistas(r@) == resumen_escrito(plan@),
{
    let mut r: Vec<String> = Vec::new();
    if plan.is_empty() {
        assert(texto::vistas(r@) =~= Seq::<Seq<char>>::empty());
        return r;
    }
    poner(&mut r, "   a recolectar:".to_owned());
    assert(texto::vistas(r@) =~= seq!["   a recolectar:"@]);
    poner_zona(&mut r, "deps/", &plan.deps);
    poner_zona(&mut r, ".fingerprint/", &plan.fingerprints);
    poner_zona(&mut r, "build/", &plan.builds);
    poner_zona(&mut r, "incremental/", &plan.incremental);
    poner_zona(&mut r, "codegen .o", &plan.codegen);
    r
}

/// Lo que se dice de lo que se hizo, según el modo.
pub open spec fn modo_escrito(total: TotalesVistos, mode: Mode, retain_days: nat) -> Seq<
    Seq<char>,
> {
    match mode {
        Mode::DryRun => seq![
            "modo          simulación — no se tocó nada"@,
            "              usa --apply para moverlo a la papelera"@,
        ],
        Mode::Trash => seq![
            "liberado      "@ + columna(total.liberado as nat, 10) + "  (movido a "@ + TRASH_DIR@
                + "/)"@,
            "              se purga solo a los "@ + texto::decimal(retain_days) + " días"@,
        ],
        Mode::Delete => seq![
            "liberado      "@ + columna(total.liberado as nat, 10)
                + "  (borrado, sin papelera)"@,
        ],
    }
}

/// El resumen de la corrida.
pub open spec fn final_escrito(total: TotalesVistos, mode: Mode, retain_days: nat) -> Seq<
    Seq<char>,
> {
    let purgado = if total.purgado > 0 {
        seq!["papelera      "@ + columna(total.purgado as nat, 10) + "  purgada por retención"@]
    } else {
        Seq::empty()
    };
    let fallos = if total.fallos > 0 {
        seq![
            "fallos        "@ + texto::decimal(total.fallos as nat)
                + " entradas no se pudieron mover"@,
        ]
    } else {
        Seq::empty()
    };
    let ocupados = if total.ocupados.len() > 0 {
        seq![
            "omitidos      "@ + texto::unidos(total.ocupados, ", "@) + " (build en curso)"@,
        ]
    } else {
        Seq::empty()
    };
    seq![
        ""@,
        texto::repetido('=', 64),
        "recuperable   "@ + columna(total.plan as nat, 10),
    ] + modo_escrito(total, mode, retain_days) + purgado + fallos + ocupados
}

/// El resumen de la corrida.
pub fn resumen_final(total: &Totales, mode: Mode, retain_days: u64) -> (r: Vec<String>)
    ensures
        texto::vistas(r@) == final_escrito(total@, mode, retain_days as nat),
{
    let mut r: Vec<String> = Vec::new();
    poner(&mut r, "".to_owned());
    poner(&mut r, texto::alinear_derecha("=", 64, '='));
    proof {
        reveal_strlit("=");
        assert(texto::a_la_derecha("="@, 64, '=') =~= texto::repetido('=', 64));
    }
    let mut plan: String = "recuperable   ".to_owned();
    plan.append(en_columna(total.plan, 10).as_str());
    poner(&mut r, plan);
    match mode {
        Mode::DryRun => {
            poner(&mut r, "modo          simulación — no se tocó nada".to_owned());
            poner(&mut r, "              usa --apply para moverlo a la papelera".to_owned());
        },
        Mode::Trash => {
            let mut linea: String = "liberado      ".to_owned();
            linea.append(en_columna(total.liberado, 10).as_str());
            linea.append("  (movido a ");
            linea.append(TRASH_DIR);
            linea.append("/)");
            poner(&mut r, linea);
            let mut linea: String = "              se purga solo a los ".to_owned();
            linea.append(texto::escribir_decimal(retain_days).as_str());
            linea.append(" días");
            poner(&mut r, linea);
        },
        Mode::Delete => {
            let mut linea: String = "liberado      ".to_owned();
            linea.append(en_columna(total.liberado, 10).as_str());
            linea.append("  (borrado, sin papelera)");
            poner(&mut r, linea);
        },
    }
    if total.purgado > 0 {
        let mut linea: String = "papelera      ".to_owned();
        linea.append(en_columna(total.purgado, 10).as_str());
        linea.append("  purgada por retención");
        poner(&mut r, linea);
    }
    if total.fallos > 0 {
        let mut linea: String = "fallos        ".to_owned();
        linea.append(texto::escribir_decimal(total.fallos as u64).as_str());
        linea.append(" entradas no se pudieron mover");
        poner(&mut r, linea);
    }
    if total.ocupados.len() > 0 {
        let mut linea: String = "omitidos      ".to_owned();
        linea.append(texto::unir(&total.ocupados, ", ").as_str());
        linea.append(" (build en curso)");
        poner(&mut r, linea);
    }
    assert(texto::vistas(r@) =~= final_escrito(total@, mode, retain_days as nat));
    r
}

/// Un tamaño en su columna: escrito al final, y con espacios delante si sobra sitio.
pub proof fn ley_la_columna_solo_pone_espacios(bytes: nat, ancho: nat)
    ensures
        ({
            let c = columna(bytes, ancho);
            let t = tamano::tamano(bytes);
            &&& c.len() == if t.len() < ancho {
                ancho
            } else {
                t.len()
            }
            &&& c.skip(c.len() - t.len()) == t
            &&& forall|k: int| 0 <= k < c.len() - t.len() ==> #[trigger] c[k] == ' '
        }),
{
    texto::ley_alinear_solo_pone_relleno(tamano::tamano(bytes), ancho, ' ');
}

/// De un perfil se dicen siempre su etiqueta, sus unidades, y lo vivo y lo muerto de
/// `deps/`; que no se toca, justo si no tiene raíces; y los archivos sin hash, justo si
/// los hay.
pub proof fn ley_que_se_dice_de_un_perfil(r: Report, label: Seq<char>)
    ensures
        ({
            let lineas = informe_escrito(r, label);
            let k: int = if r.sin_raices {
                3
            } else {
                2
            };
            &&& lineas.len() == k + 3 + if r.huerfanos > 0 {
                1int
            } else {
                0int
            }
            &&& lineas[0] == ""@
            &&& lineas[1] == "── perfil "@ + label
            &&& r.sin_raices ==> lineas[2] == "   sin unidades del workspace: no se toca nada"@
            &&& lineas[k] == "   unidades en .fingerprint : "@ + texto::decimal(r.units as nat)
            &&& lineas[k + 1] == "   deps/  vivo   "@ + columna(r.live_bytes as nat, 9) + "  ("@
                + texto::decimal(r.live_files as nat) + " archivos)"@
            &&& lineas[k + 2] == "   deps/  muerto "@ + columna(r.dead_bytes as nat, 9) + "  ("@
                + texto::decimal(r.dead_files as nat) + " archivos)"@
            &&& r.huerfanos > 0 ==> lineas[k + 3] == "   archivos sin hash reconocible: "@
                + texto::decimal(r.huerfanos as nat) + " (no se tocan)"@
        }),
{
}

/// El desglose del plan tiene una línea por cada zona de la que sale algo, con lo que
/// pesa y cuántas entradas son; y ninguna línea si no sale nada.
pub proof fn ley_una_linea_por_zona(plan: PlanVista, nombre: Seq<char>, zona: Seq<EntradaVista>)
    ensures
        zona.len() == 0 ==> zona_escrita(nombre, zona).len() == 0,
        zona.len() > 0 ==> zona_escrita(nombre, zona) == seq![
            "   · "@ + texto::a_la_izquierda(nombre, 14, ' ') + " "@ + columna(
                sweep::bytes_de(zona),
                10,
            ) + "  ("@ + texto::decimal(zona.len()) + " entradas)"@,
        ],
        ({
            let vacio = plan.deps.len() == 0 && plan.fingerprints.len() == 0 && plan.builds.len()
                == 0 && plan.incremental.len() == 0 && plan.codegen.len() == 0;
            &&& vacio ==> resumen_escrito(plan).len() == 0
            &&& !vacio ==> resumen_escrito(plan) == seq!["   a recolectar:"@] + zona_escrita(
                "deps/"@,
                plan.deps,
            ) + zona_escrita(".fingerprint/"@, plan.fingerprints) + zona_escrita(
                "build/"@,
                plan.builds,
            ) + zona_escrita("incremental/"@, plan.incremental) + zona_escrita(
                "codegen .o"@,
                plan.codegen,
            )
        }),
{
}

/// Qué se dice al final: lo recuperable, siempre; lo que se liberó, según el modo; y la
/// purga, los fallos y los proyectos omitidos, justo si los hubo.
pub proof fn ley_que_se_dice_al_final(total: TotalesVistos, mode: Mode, retain_days: nat)
    ensures
        ({
            let lineas = final_escrito(total, mode, retain_days);
            let k: int = if mode == Mode::Delete {
                4
            } else {
                5
            };
            let purga: int = if total.purgado > 0 {
                1
            } else {
                0
            };
            let fallos: int = if total.fallos > 0 {
                1
            } else {
                0
            };
            let omitidos: int = if total.ocupados.len() > 0 {
                1
            } else {
                0
            };
            &&& lineas.len() == k + purga + fallos + omitidos
            &&& lineas[0] == ""@
            &&& lineas[1] == Seq::new(64, |i: int| '=')
            &&& lineas[2] == "recuperable   "@ + columna(total.plan as nat, 10)
            &&& mode == Mode::DryRun ==> {
                &&& lineas[3] == "modo          simulación — no se tocó nada"@
                &&& lineas[4] == "              usa --apply para moverlo a la papelera"@
            }
            &&& mode == Mode::Trash ==> {
                &&& lineas[3] == "liberado      "@ + columna(total.liberado as nat, 10)
                    + "  (movido a "@ + ".reap-trash"@ + "/)"@
                &&& lineas[4] == "              se purga solo a los "@ + texto::decimal(retain_days)
                    + " días"@
            }
            &&& mode == Mode::Delete ==> lineas[3] == "liberado      "@ + columna(
                total.liberado as nat,
                10,
            ) + "  (borrado, sin papelera)"@
            &&& total.purgado > 0 ==> lineas[k] == "papelera      "@ + columna(
                total.purgado as nat,
                10,
            ) + "  purgada por retención"@
            &&& total.fallos > 0 ==> lineas[k + purga] == "fallos        "@ + texto::decimal(
                total.fallos as nat,
            ) + " entradas no se pudieron mover"@
            &&& total.ocupados.len() > 0 ==> lineas[k + purga + fallos] == "omitidos      "@
                + texto::unidos(total.ocupados, ", "@) + " (build en curso)"@
        }),
{
    texto::ley_repetir('=', 64);
    assert(texto::repetido('=', 64) =~= Seq::new(64, |i: int| '='));
}

/// Qué se dice del grafo, de la última actividad, de un proyecto y de la poda.
pub proof fn ley_que_se_dice_de_paso(
    resueltas: nat,
    total: nat,
    porcentaje: Seq<char>,
    raices: nat,
    vivas: nat,
    linea: Seq<char>,
    t: Instante,
    nombre: Seq<char>,
    n: nat,
)
    ensures
        grafo_escrito(resueltas, total, porcentaje, raices, vivas) == "grafo: "@ + texto::decimal(
            resueltas,
        ) + "/"@ + texto::decimal(total) + " aristas resueltas ("@ + porcentaje + "%) · "@
            + texto::decimal(raices) + " raíces -> "@ + texto::decimal(vivas) + " unidades vivas"@,
        es_actividad(linea, t) <==> exists|escrita: Seq<char>|
            #![trigger fecha::es_fecha_de(escrita, t)]
            fecha::es_fecha_de(escrita, t) && linea == "actividad más reciente: "@ + escrita,
        proyecto_escrito(nombre, n) == "  "@ + texto::a_la_izquierda(nombre, 44, ' ') + " "@
            + columna(n, 10),
        aviso_escrito(n) == seq![
            "⚠ --keep-configs "@ + texto::decimal(n)
                + ": se descartarán configuraciones del workspace por antigüedad."@,
            "  Si la que construyes a continuación es una de ellas, el build recompila entero."@,
        ],
{
}

} // verus!
