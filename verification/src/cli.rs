//! La línea de órdenes.

use crate::sweep::Mode;
use crate::texto;
use vstd::prelude::*;
use vstd::string::*;

verus! {

/// Lo que se pidió en la línea de órdenes.
pub struct Ajustes {
    /// La ruta de un `target/`, o de una carpeta con proyectos.
    pub path: String,
    /// Cuántas configuraciones de cada unidad se conservan.
    ///
    /// Por defecto se conservan TODAS las del workspace. Podar por recencia es
    /// inseguro: `invoked.timestamp` sólo avanza en las unidades que Cargo
    /// recompila, así que la variante más reciente no es la que vas a construir,
    /// sino la última que tocó una recompilación.
    pub keep_configs: usize,
    pub list_dead: bool,
    pub apply: bool,
    pub no_trash: bool,
    pub incremental: bool,
    /// Los .rcgu.o de unidades vivas se barren por defecto: son objetos
    /// intermedios que rustc reemite cuando recompila la unidad, y Cargo no los
    /// cuenta entre los outputs que verifica. Borrarlos no provoca ni un rebuild
    /// extra, y son la mayor parte de lo recuperable.
    pub codegen: bool,
    pub retain_days: u64,
}

/// Lo que dicen unos ajustes, como valor matemático.
#[verifier::ext_equal]
pub struct AjustesVistos {
    pub path: Seq<char>,
    pub keep_configs: usize,
    pub list_dead: bool,
    pub apply: bool,
    pub no_trash: bool,
    pub incremental: bool,
    pub codegen: bool,
    pub retain_days: u64,
}

impl View for Ajustes {
    type V = AjustesVistos;

    open spec fn view(&self) -> AjustesVistos {
        AjustesVistos {
            path: self.path@,
            keep_configs: self.keep_configs,
            list_dead: self.list_dead,
            apply: self.apply,
            no_trash: self.no_trash,
            incremental: self.incremental,
            codegen: self.codegen,
            retain_days: self.retain_days,
        }
    }
}

/// Los ajustes si no se pide nada.
pub open spec fn por_defecto() -> AjustesVistos {
    AjustesVistos {
        path: "target"@,
        keep_configs: usize::MAX,
        list_dead: false,
        apply: false,
        no_trash: false,
        incremental: false,
        codegen: true,
        retain_days: 7,
    }
}

impl Default for Ajustes {
    /// Los ajustes si no se pide nada.
    fn default() -> (r: Ajustes)
        ensures
            r@ == por_defecto(),
    {
        Ajustes {
            path: "target".to_owned(),
            keep_configs: usize::MAX,
            list_dead: false,
            apply: false,
            no_trash: false,
            incremental: false,
            codegen: true,
            retain_days: 7,
        }
    }
}

/// La línea de órdenes, interpretada.
pub struct Pedido {
    /// Cada número de configuraciones que se pidió conservar, para avisar de que es
    /// inseguro.
    pub avisos: Vec<usize>,
    /// Se pidió la ayuda; lo que viniera detrás no se interpreta.
    pub ayuda: bool,
    pub ajustes: Ajustes,
}

/// Lo que dice un pedido, como valor matemático.
#[verifier::ext_equal]
pub struct PedidoVisto {
    pub avisos: Seq<usize>,
    pub ayuda: bool,
    pub ajustes: AjustesVistos,
}

impl View for Pedido {
    type V = PedidoVisto;

    open spec fn view(&self) -> PedidoVisto {
        PedidoVisto { avisos: self.avisos@, ayuda: self.ayuda, ajustes: self.ajustes@ }
    }
}

/// Los argumentos sin el nombre de la orden, que está cuando se invoca como
/// `cargo reap` y no cuando se invoca como `cargo-reap`.
pub open spec fn sin_reap(args: Seq<Seq<char>>) -> Seq<Seq<char>> {
    args.filter(|a: Seq<char>| a != "reap"@)
}

/// El valor de una opción: el argumento que la sigue o, si no hay, uno fijo.
pub open spec fn valor(resto: Seq<Seq<char>>, si_falta: Seq<char>) -> Seq<char> {
    if resto.len() > 0 {
        resto[0]
    } else {
        si_falta
    }
}

/// Los argumentos que siguen al valor de una opción.
pub open spec fn tras_valor(resto: Seq<Seq<char>>) -> Seq<Seq<char>> {
    if resto.len() > 0 {
        resto.skip(1)
    } else {
        resto
    }
}

/// Cuántas configuraciones se pide conservar: un número, y al menos una; una si no
/// es un número.
pub open spec fn configuraciones(valor: Seq<char>) -> usize {
    match texto::natural_hasta(valor, usize::MAX as nat) {
        Some(n) => if n > 0 {
            n as usize
        } else {
            1
        },
        None => 1,
    }
}

/// Cuántos días se pide retener: un número; siete si no lo es.
pub open spec fn dias(valor: Seq<char>) -> u64 {
    match texto::natural_hasta(valor, u64::MAX as nat) {
        Some(n) => n as u64,
        None => 7,
    }
}

/// Lo que se pide con unos argumentos, a partir de unos ajustes.
pub open spec fn pedido_con(
    args: Seq<Seq<char>>,
    avisos: Seq<usize>,
    a: AjustesVistos,
) -> PedidoVisto
    decreases args.len(),
{
    if args.len() == 0 {
        PedidoVisto { avisos, ayuda: false, ajustes: a }
    } else {
        let arg = args[0];
        let resto = args.skip(1);
        if arg == "--keep-configs"@ {
            let n = configuraciones(valor(resto, "1"@));
            pedido_con(tras_valor(resto), avisos.push(n), AjustesVistos { keep_configs: n, ..a })
        } else if arg == "--retain-days"@ {
            pedido_con(
                tras_valor(resto),
                avisos,
                AjustesVistos { retain_days: dias(valor(resto, "7"@)), ..a },
            )
        } else if arg == "--list-dead"@ {
            pedido_con(resto, avisos, AjustesVistos { list_dead: true, ..a })
        } else if arg == "--apply"@ {
            pedido_con(resto, avisos, AjustesVistos { apply: true, ..a })
        } else if arg == "--no-trash"@ {
            pedido_con(resto, avisos, AjustesVistos { no_trash: true, ..a })
        } else if arg == "--incremental"@ {
            pedido_con(resto, avisos, AjustesVistos { incremental: true, ..a })
        } else if arg == "--keep-codegen"@ {
            pedido_con(resto, avisos, AjustesVistos { codegen: false, ..a })
        } else if arg == "--codegen"@ {
            pedido_con(resto, avisos, AjustesVistos { codegen: true, ..a })
        } else if arg == "-h"@ || arg == "--help"@ {
            PedidoVisto { avisos, ayuda: true, ajustes: a }
        } else {
            pedido_con(resto, avisos, AjustesVistos { path: arg, ..a })
        }
    }
}

/// Lo que se pide con los argumentos que siguen al nombre del programa.
pub open spec fn pedido_de(args: Seq<Seq<char>>) -> PedidoVisto {
    pedido_con(sin_reap(args), Seq::empty(), por_defecto())
}

fn quitar_reap(args: &Vec<String>) -> (r: Vec<&str>)
    ensures
        textos(r@) == sin_reap(texto::vistas(args@)),
{
    let ghost vistas = texto::vistas(args@);
    let mut r: Vec<&str> = Vec::new();
    proof {
        reveal(Seq::filter);
        assert(textos(r@) =~= sin_reap(vistas.take(0)));
    }
    for i in 0..args.len()
        invariant
            vistas == texto::vistas(args@),
            textos(r@) == sin_reap(vistas.take(i as int)),
    {
        let ghost antes = r@;
        proof {
            reveal(Seq::filter);
            assert(vistas.take(i + 1).drop_last() =~= vistas.take(i as int));
            assert(vistas.take(i + 1).last() == args@[i as int]@);
        }
        let arg = args[i].as_str();
        if !texto::iguales(arg, "reap") {
            r.push(arg);
            assert(textos(r@) =~= textos(antes).push(arg@));
        }
    }
    assert(vistas.take(vistas.len() as int) =~= vistas);
    r
}

/// Las vistas de unos textos.
pub open spec fn textos(partes: Seq<&str>) -> Seq<Seq<char>> {
    partes.map_values(|t: &str| t@)
}

fn leer_configuraciones(valor: &str) -> (r: usize)
    ensures
        r == configuraciones(valor@),
{
    match texto::leer_natural(valor, usize::MAX as u64) {
        Some(n) => if n > 0 {
            n as usize
        } else {
            1
        },
        None => 1,
    }
}

fn leer_dias(valor: &str) -> (r: u64)
    ensures
        r == dias(valor@),
{
    match texto::leer_natural(valor, u64::MAX) {
        Some(n) => n,
        None => 7,
    }
}

/// Interpreta los argumentos que siguen al nombre del programa.
pub fn interpretar(args: &Vec<String>) -> (r: Pedido)
    ensures
        r@ == pedido_de(texto::vistas(args@)),
{
    let ghost esperado = pedido_de(texto::vistas(args@));
    let lista = quitar_reap(args);
    let ghost todos = textos(lista@);
    let mut avisos: Vec<usize> = Vec::new();
    let mut ajustes = Ajustes::default();
    let mut i: usize = 0;
    assert(todos.skip(0) =~= todos);
    while i < lista.len()
        invariant
            i <= lista@.len(),
            todos == textos(lista@),
            esperado == pedido_de(texto::vistas(args@)),
            esperado == pedido_con(todos.skip(i as int), avisos@, ajustes@),
        decreases lista.len() - i,
    {
        let arg = lista[i];
        let ghost quedan = todos.skip(i as int);
        let ghost resto = todos.skip(i + 1);
        assert(quedan[0] == arg@);
        assert(quedan.skip(1) =~= resto);
        i += 1;
        let con_valor = texto::iguales(arg, "--keep-configs") || texto::iguales(
            arg,
            "--retain-days",
        );
        if con_valor {
            let hay = i < lista.len();
            assert(hay ==> resto[0] == lista@[i as int]@ && resto.skip(1) =~= todos.skip(i + 1));
            assert(!hay ==> resto =~= Seq::<Seq<char>>::empty());
            if texto::iguales(arg, "--keep-configs") {
                let n: usize = leer_configuraciones(
                    if hay {
                        lista[i]
                    } else {
                        "1"
                    },
                );
                ajustes.keep_configs = n;
                avisos.push(n);
            } else {
                ajustes.retain_days = leer_dias(
                    if hay {
                        lista[i]
                    } else {
                        "7"
                    },
                );
            }
            if hay {
                i += 1;
            }
        } else if texto::iguales(arg, "--list-dead") {
            ajustes.list_dead = true;
        } else if texto::iguales(arg, "--apply") {
            ajustes.apply = true;
        } else if texto::iguales(arg, "--no-trash") {
            ajustes.no_trash = true;
        } else if texto::iguales(arg, "--incremental") {
            ajustes.incremental = true;
        } else if texto::iguales(arg, "--keep-codegen") {
            ajustes.codegen = false;
        } else if texto::iguales(arg, "--codegen") {
            ajustes.codegen = true;
        } else if texto::iguales(arg, "-h") || texto::iguales(arg, "--help") {
            return Pedido { avisos, ayuda: true, ajustes };
        } else {
            ajustes.path = arg.to_owned();
        }
    }
    Pedido { avisos, ayuda: false, ajustes }
}

/// Qué se hace con lo muerto. Sin `--apply` sólo se informa; con `--apply` va a la
/// papelera, y con `--no-trash` además se borra directo.
pub open spec fn modo_de(apply: bool, no_trash: bool) -> Mode {
    if !apply {
        Mode::DryRun
    } else if no_trash {
        Mode::Delete
    } else {
        Mode::Trash
    }
}

/// Ajustes de una corrida, comunes a todos los proyectos que se recorran.
#[derive(Clone, Copy, Debug, PartialEq, Eq, Structural)]
pub struct Opciones {
    pub keep_configs: usize,
    pub list_dead: bool,
    pub mode: Mode,
    pub incremental: bool,
    pub codegen: bool,
    pub retain_days: u64,
    /// Con un solo proyecto se imprime el desglose por perfil; con varios, una
    /// línea por proyecto, que es lo que sirve en un cron.
    pub detallado: bool,
}

impl Ajustes {
    /// Los ajustes de una corrida por esos proyectos.
    pub fn opciones(&self, proyectos: usize) -> (r: Opciones)
        ensures
            r == (Opciones {
                keep_configs: self.keep_configs,
                list_dead: self.list_dead,
                mode: modo_de(self.apply, self.no_trash),
                incremental: self.incremental,
                codegen: self.codegen,
                retain_days: self.retain_days,
                detallado: proyectos <= 1,
            }),
    {
        Opciones {
            keep_configs: self.keep_configs,
            list_dead: self.list_dead,
            mode: if !self.apply {
                Mode::DryRun
            } else if self.no_trash {
                Mode::Delete
            } else {
                Mode::Trash
            },
            incremental: self.incremental,
            codegen: self.codegen,
            retain_days: self.retain_days,
            detallado: proyectos <= 1,
        }
    }
}

/// Da lo mismo invocarlo como `cargo reap` que como `cargo-reap`.
pub proof fn ley_da_igual_como_se_invoque(args: Seq<Seq<char>>)
    ensures
        pedido_de(seq!["reap"@] + args) == pedido_de(args),
{
    let cual = |a: Seq<char>| a != "reap"@;
    reveal_with_fuel(Seq::filter, 2);
    Seq::filter_distributes_over_add(seq!["reap"@], args, cual);
    assert(seq!["reap"@].drop_last() =~= Seq::<Seq<char>>::empty());
    assert(sin_reap(seq!["reap"@] + args) =~= sin_reap(args));
}

/// Sin argumentos valen los ajustes por defecto, que no tocan nada.
pub proof fn ley_por_defecto_no_se_toca_nada()
    ensures
        pedido_de(Seq::empty()) == (PedidoVisto {
            avisos: Seq::empty(),
            ayuda: false,
            ajustes: por_defecto(),
        }),
        modo_de(por_defecto().apply, por_defecto().no_trash) == Mode::DryRun,
{
    reveal(Seq::filter);
}

proof fn lemma_apply(args: Seq<Seq<char>>, avisos: Seq<usize>, a: AjustesVistos)
    requires
        !args.contains("--apply"@),
        !a.apply,
    ensures
        !pedido_con(args, avisos, a).ajustes.apply,
    decreases args.len(),
{
    if args.len() > 0 {
        let arg = args[0];
        let resto = args.skip(1);
        assert(args.contains(arg));
        assert forall|i: int| 0 <= i < resto.len() implies resto[i] != "--apply"@ by {
            assert(args.contains(args[i + 1]));
        }
        assert forall|i: int| 0 <= i < tras_valor(resto).len() implies tras_valor(resto)[i]
            != "--apply"@ by {
            assert(resto.len() > 0 && tras_valor(resto)[i] == resto[i + 1]);
        }
        let n = configuraciones(valor(resto, "1"@));
        let d = dias(valor(resto, "7"@));
        lemma_apply(tras_valor(resto), avisos.push(n), AjustesVistos { keep_configs: n, ..a });
        lemma_apply(tras_valor(resto), avisos, AjustesVistos { retain_days: d, ..a });
        lemma_apply(resto, avisos, AjustesVistos { list_dead: true, ..a });
        lemma_apply(resto, avisos, AjustesVistos { no_trash: true, ..a });
        lemma_apply(resto, avisos, AjustesVistos { incremental: true, ..a });
        lemma_apply(resto, avisos, AjustesVistos { codegen: false, ..a });
        lemma_apply(resto, avisos, AjustesVistos { codegen: true, ..a });
        lemma_apply(resto, avisos, AjustesVistos { path: arg, ..a });
    }
}

/// Sin `--apply` sólo se informa, se pida lo que se pida además.
pub proof fn ley_sin_apply_solo_se_informa(args: Seq<Seq<char>>)
    requires
        !args.contains("--apply"@),
    ensures
        ({
            let a = pedido_de(args).ajustes;
            modo_de(a.apply, a.no_trash) == Mode::DryRun
        }),
{
    let cual = |a: Seq<char>| a != "reap"@;
    if sin_reap(args).contains("--apply"@) {
        args.lemma_filter_contains_rev(cual, "--apply"@);
    }
    lemma_apply(sin_reap(args), Seq::empty(), por_defecto());
}

proof fn lemma_al_menos_una(args: Seq<Seq<char>>, avisos: Seq<usize>, a: AjustesVistos)
    requires
        a.keep_configs >= 1,
    ensures
        pedido_con(args, avisos, a).ajustes.keep_configs >= 1,
    decreases args.len(),
{
    if args.len() > 0 {
        let arg = args[0];
        let resto = args.skip(1);
        let n = configuraciones(valor(resto, "1"@));
        let d = dias(valor(resto, "7"@));
        lemma_al_menos_una(
            tras_valor(resto),
            avisos.push(n),
            AjustesVistos { keep_configs: n, ..a },
        );
        lemma_al_menos_una(tras_valor(resto), avisos, AjustesVistos { retain_days: d, ..a });
        lemma_al_menos_una(resto, avisos, AjustesVistos { list_dead: true, ..a });
        lemma_al_menos_una(resto, avisos, AjustesVistos { apply: true, ..a });
        lemma_al_menos_una(resto, avisos, AjustesVistos { no_trash: true, ..a });
        lemma_al_menos_una(resto, avisos, AjustesVistos { incremental: true, ..a });
        lemma_al_menos_una(resto, avisos, AjustesVistos { codegen: false, ..a });
        lemma_al_menos_una(resto, avisos, AjustesVistos { codegen: true, ..a });
        lemma_al_menos_una(resto, avisos, AjustesVistos { path: arg, ..a });
    }
}

/// Siempre se conserva al menos una configuración de cada unidad.
pub proof fn ley_se_conserva_al_menos_una(args: Seq<Seq<char>>)
    ensures
        pedido_de(args).ajustes.keep_configs >= 1,
{
    lemma_al_menos_una(sin_reap(args), Seq::empty(), por_defecto());
}

/// Las opciones se escriben todas distintas.
proof fn lemma_opciones_distintas()
    ensures
        "--keep-configs"@ != "--retain-days"@,
        "--list-dead"@ != "--keep-configs"@ && "--list-dead"@ != "--retain-days"@,
        "--apply"@ != "--keep-configs"@ && "--apply"@ != "--retain-days"@ && "--apply"@
            != "--list-dead"@,
        "--no-trash"@ != "--keep-configs"@ && "--no-trash"@ != "--retain-days"@ && "--no-trash"@
            != "--list-dead"@ && "--no-trash"@ != "--apply"@,
        "--incremental"@ != "--keep-configs"@ && "--incremental"@ != "--retain-days"@
            && "--incremental"@ != "--list-dead"@ && "--incremental"@ != "--apply"@
            && "--incremental"@ != "--no-trash"@,
        "--keep-codegen"@ != "--keep-configs"@ && "--keep-codegen"@ != "--retain-days"@
            && "--keep-codegen"@ != "--list-dead"@ && "--keep-codegen"@ != "--apply"@
            && "--keep-codegen"@ != "--no-trash"@ && "--keep-codegen"@ != "--incremental"@,
        "--codegen"@ != "--keep-configs"@ && "--codegen"@ != "--retain-days"@ && "--codegen"@
            != "--list-dead"@ && "--codegen"@ != "--apply"@ && "--codegen"@ != "--no-trash"@
            && "--codegen"@ != "--incremental"@ && "--codegen"@ != "--keep-codegen"@,
        "-h"@ != "--keep-configs"@ && "-h"@ != "--retain-days"@ && "-h"@ != "--list-dead"@ && "-h"@
            != "--apply"@ && "-h"@ != "--no-trash"@ && "-h"@ != "--incremental"@ && "-h"@
            != "--keep-codegen"@ && "-h"@ != "--codegen"@,
        "--help"@ != "--keep-configs"@ && "--help"@ != "--retain-days"@ && "--help"@
            != "--list-dead"@ && "--help"@ != "--apply"@ && "--help"@ != "--no-trash"@ && "--help"@
            != "--incremental"@ && "--help"@ != "--keep-codegen"@ && "--help"@ != "--codegen"@,
{
    reveal_strlit("--keep-configs");
    reveal_strlit("--retain-days");
    reveal_strlit("--list-dead");
    reveal_strlit("--apply");
    reveal_strlit("--no-trash");
    reveal_strlit("--incremental");
    reveal_strlit("--keep-codegen");
    reveal_strlit("--codegen");
    reveal_strlit("-h");
    reveal_strlit("--help");
    assert("--keep-configs"@.len() == 14 && "--keep-codegen"@.len() == 14);
    assert("--retain-days"@.len() == 13 && "--incremental"@.len() == 13);
    assert("--list-dead"@.len() == 11);
    assert("--no-trash"@.len() == 10);
    assert("--codegen"@.len() == 9);
    assert("--apply"@.len() == 7);
    assert("--help"@.len() == 6);
    assert("-h"@.len() == 2);
    assert("--incremental"@[2] != "--retain-days"@[2]);
    assert("--keep-codegen"@[9] != "--keep-configs"@[9]);
}

/// Cada opción cambia lo suyo y deja todo lo demás como estaba; lo que no es una opción
/// es la ruta; y la ayuda corta lo que sigue.
pub proof fn ley_cada_opcion_cambia_lo_suyo(
    arg: Seq<char>,
    resto: Seq<Seq<char>>,
    avisos: Seq<usize>,
    a: AjustesVistos,
)
    ensures
        ({
            let p = pedido_con(seq![arg] + resto, avisos, a);
            &&& arg == "--list-dead"@ ==> p == pedido_con(
                resto,
                avisos,
                AjustesVistos { list_dead: true, ..a },
            )
            &&& arg == "--apply"@ ==> p == pedido_con(
                resto,
                avisos,
                AjustesVistos { apply: true, ..a },
            )
            &&& arg == "--no-trash"@ ==> p == pedido_con(
                resto,
                avisos,
                AjustesVistos { no_trash: true, ..a },
            )
            &&& arg == "--incremental"@ ==> p == pedido_con(
                resto,
                avisos,
                AjustesVistos { incremental: true, ..a },
            )
            &&& arg == "--keep-codegen"@ ==> p == pedido_con(
                resto,
                avisos,
                AjustesVistos { codegen: false, ..a },
            )
            &&& arg == "--codegen"@ ==> p == pedido_con(
                resto,
                avisos,
                AjustesVistos { codegen: true, ..a },
            )
            &&& arg == "-h"@ || arg == "--help"@ ==> p == (PedidoVisto {
                avisos,
                ayuda: true,
                ajustes: a,
            })
            &&& arg != "--list-dead"@ && arg != "--apply"@ && arg != "--no-trash"@ && arg
                != "--incremental"@ && arg != "--keep-codegen"@ && arg != "--codegen"@ && arg
                != "-h"@ && arg != "--help"@ && arg != "--keep-configs"@ && arg
                != "--retain-days"@ ==> p == pedido_con(
                resto,
                avisos,
                AjustesVistos { path: arg, ..a },
            )
        }),
        pedido_con(Seq::empty(), avisos, a) == (PedidoVisto { avisos, ayuda: false, ajustes: a }),
{
    lemma_opciones_distintas();
    let args = seq![arg] + resto;
    assert(args[0] == arg);
    assert(args.skip(1) =~= resto);
}

/// Una opción con valor consume el argumento que la sigue, y sólo cambia lo suyo: el
/// número que escribe o, si no escribe ninguno, el valor prudente. De configuraciones
/// se conserva siempre una al menos.
pub proof fn ley_las_opciones_con_valor(
    valor: Seq<char>,
    resto: Seq<Seq<char>>,
    avisos: Seq<usize>,
    a: AjustesVistos,
)
    ensures
        ({
            let n: usize = match texto::natural(valor) {
                Some(n) => if 1 <= n && n <= usize::MAX {
                    n as usize
                } else {
                    1
                },
                None => 1,
            };
            pedido_con(seq!["--keep-configs"@, valor] + resto, avisos, a) == pedido_con(
                resto,
                avisos.push(n),
                AjustesVistos { keep_configs: n, ..a },
            )
        }),
        ({
            let d: u64 = match texto::natural(valor) {
                Some(n) => if n <= u64::MAX {
                    n as u64
                } else {
                    7
                },
                None => 7,
            };
            pedido_con(seq!["--retain-days"@, valor] + resto, avisos, a) == pedido_con(
                resto,
                avisos,
                AjustesVistos { retain_days: d, ..a },
            )
        }),
        pedido_con(seq!["--keep-configs"@], avisos, a) == (PedidoVisto {
            avisos: avisos.push(1),
            ayuda: false,
            ajustes: AjustesVistos { keep_configs: 1, ..a },
        }),
        pedido_con(seq!["--retain-days"@], avisos, a) == (PedidoVisto {
            avisos,
            ayuda: false,
            ajustes: AjustesVistos { retain_days: 7, ..a },
        }),
{
    lemma_opciones_distintas();
    let uno = seq!["--keep-configs"@, valor] + resto;
    let dos = seq!["--retain-days"@, valor] + resto;
    assert(uno[0] == "--keep-configs"@ && uno.skip(1)[0] == valor);
    assert(tras_valor(uno.skip(1)) =~= resto);
    assert(dos[0] == "--retain-days"@ && dos.skip(1)[0] == valor);
    assert(tras_valor(dos.skip(1)) =~= resto);
    let sola = seq!["--keep-configs"@];
    let otra = seq!["--retain-days"@];
    assert(sola.skip(1) =~= Seq::<Seq<char>>::empty());
    assert(otra.skip(1) =~= Seq::<Seq<char>>::empty());
    assert(configuraciones("1"@) == 1) by {
        reveal_strlit("1");
        assert("1"@ =~= seq!['1']);
        reveal_strlit("0123456789");
        texto::ley_como_se_lee_un_numero("1"@, 1);
        assert("0123456789"@[1] == '1');
    }
    assert(dias("7"@) == 7) by {
        reveal_strlit("7");
        assert("7"@ =~= seq!['7']);
        reveal_strlit("0123456789");
        texto::ley_como_se_lee_un_numero("7"@, 7);
        assert("0123456789"@[7] == '7');
    }
    let nada = Seq::<Seq<char>>::empty();
    assert(tras_valor(nada) == nada);
    assert(pedido_con(nada, avisos.push(1), AjustesVistos { keep_configs: 1, ..a }) == (PedidoVisto {
        avisos: avisos.push(1),
        ayuda: false,
        ajustes: AjustesVistos { keep_configs: 1, ..a },
    }));
    assert(pedido_con(nada, avisos, AjustesVistos { retain_days: 7, ..a }) == (PedidoVisto {
        avisos,
        ayuda: false,
        ajustes: AjustesVistos { retain_days: 7, ..a },
    }));
}

/// Se parte siempre de lo mismo: `target`, todas las configuraciones, sólo informar,
/// sin `incremental/`, con los intermedios, y siete días. El nombre de la orden no es
/// un argumento, esté donde esté.
pub proof fn ley_de_que_se_parte(args: Seq<Seq<char>>, arg: Seq<char>)
    ensures
        pedido_de(args) == pedido_con(
            sin_reap(args),
            Seq::empty(),
            AjustesVistos {
                path: "target"@,
                keep_configs: usize::MAX,
                list_dead: false,
                apply: false,
                no_trash: false,
                incremental: false,
                codegen: true,
                retain_days: 7,
            },
        ),
        sin_reap(Seq::empty()) == Seq::<Seq<char>>::empty(),
        arg == "reap"@ ==> sin_reap(args.push(arg)) == sin_reap(args),
        arg != "reap"@ ==> sin_reap(args.push(arg)) == sin_reap(args).push(arg),
{
    reveal(Seq::filter);
    assert(args.push(arg).drop_last() =~= args);
}

/// Lo que no aparece entre los argumentos no cambia; y lo que aparece, si ninguno lleva
/// valor ni es la ayuda, cambia.
proof fn lemma_lo_que_se_pide(args: Seq<Seq<char>>, avisos: Seq<usize>, a: AjustesVistos)
    ensures
        ({
            let p = pedido_con(args, avisos, a);
            let sueltas = !args.contains("--keep-configs"@) && !args.contains("--retain-days"@)
                && !args.contains("-h"@) && !args.contains("--help"@);
            &&& !args.contains("--apply"@) ==> p.ajustes.apply == a.apply
            &&& !args.contains("--no-trash"@) ==> p.ajustes.no_trash == a.no_trash
            &&& !args.contains("--list-dead"@) ==> p.ajustes.list_dead == a.list_dead
            &&& !args.contains("--incremental"@) ==> p.ajustes.incremental == a.incremental
            &&& !args.contains("--keep-codegen"@) && !args.contains("--codegen"@)
                ==> p.ajustes.codegen == a.codegen
            &&& !args.contains("--keep-codegen"@) && a.codegen ==> p.ajustes.codegen
            &&& !args.contains("--keep-configs"@) ==> p.ajustes.keep_configs == a.keep_configs
                && p.avisos == avisos
            &&& !args.contains("--retain-days"@) ==> p.ajustes.retain_days == a.retain_days
            &&& !args.contains("-h"@) && !args.contains("--help"@) ==> !p.ayuda
            &&& p.ajustes.path == a.path || args.contains(p.ajustes.path)
            &&& a.apply ==> p.ajustes.apply
            &&& a.no_trash ==> p.ajustes.no_trash
            &&& a.list_dead ==> p.ajustes.list_dead
            &&& a.incremental ==> p.ajustes.incremental
            &&& sueltas && args.contains("--apply"@) ==> p.ajustes.apply
            &&& sueltas && args.contains("--no-trash"@) ==> p.ajustes.no_trash
            &&& sueltas && args.contains("--list-dead"@) ==> p.ajustes.list_dead
            &&& sueltas && args.contains("--incremental"@) ==> p.ajustes.incremental
            &&& sueltas && args.contains("--keep-codegen"@) && !args.contains("--codegen"@)
                ==> !p.ajustes.codegen
        }),
    decreases args.len(),
{
    if args.len() > 0 {
        lemma_opciones_distintas();
        let arg = args[0];
        let resto = args.skip(1);
        let cola = tras_valor(resto);
        assert(args.contains(arg));
        assert forall|x: Seq<char>| #[trigger] resto.contains(x) implies args.contains(x) by {
            let i = choose|i: int| 0 <= i < resto.len() && resto[i] == x;
            assert(args[i + 1] == x);
        }
        assert forall|x: Seq<char>| #[trigger] cola.contains(x) implies args.contains(x) by {
            let i = choose|i: int| 0 <= i < cola.len() && cola[i] == x;
            assert(resto.len() > 0 && resto[i + 1] == x);
            assert(resto.contains(x));
        }
        assert forall|x: Seq<char>| args.contains(x) && x != arg implies #[trigger] resto.contains(
            x,
        ) by {
            let i = choose|i: int| 0 <= i < args.len() && args[i] == x;
            assert(resto[i - 1] == x);
        }
        if arg == "--keep-configs"@ {
            let n = configuraciones(valor(resto, "1"@));
            lemma_lo_que_se_pide(cola, avisos.push(n), AjustesVistos { keep_configs: n, ..a });
        } else if arg == "--retain-days"@ {
            let d = dias(valor(resto, "7"@));
            lemma_lo_que_se_pide(cola, avisos, AjustesVistos { retain_days: d, ..a });
        } else if arg == "--list-dead"@ {
            lemma_lo_que_se_pide(resto, avisos, AjustesVistos { list_dead: true, ..a });
        } else if arg == "--apply"@ {
            lemma_lo_que_se_pide(resto, avisos, AjustesVistos { apply: true, ..a });
        } else if arg == "--no-trash"@ {
            lemma_lo_que_se_pide(resto, avisos, AjustesVistos { no_trash: true, ..a });
        } else if arg == "--incremental"@ {
            lemma_lo_que_se_pide(resto, avisos, AjustesVistos { incremental: true, ..a });
        } else if arg == "--keep-codegen"@ {
            lemma_lo_que_se_pide(resto, avisos, AjustesVistos { codegen: false, ..a });
        } else if arg == "--codegen"@ {
            lemma_lo_que_se_pide(resto, avisos, AjustesVistos { codegen: true, ..a });
        } else if arg == "-h"@ || arg == "--help"@ {
        } else {
            lemma_lo_que_se_pide(resto, avisos, AjustesVistos { path: arg, ..a });
        }
    }
}

/// De qué se pide a qué se hace: lo que no se escribe no se hace. Sin `--apply` no se
/// toca nada; sin `--no-trash` nunca se borra sin papelera; y sin las demás opciones
/// vale lo de por defecto, se pida lo que se pida además.
pub proof fn ley_lo_que_no_se_pide_no_se_hace(args: Seq<Seq<char>>)
    ensures
        ({
            let p = pedido_de(args);
            let mode = modo_de(p.ajustes.apply, p.ajustes.no_trash);
            &&& !args.contains("--apply"@) ==> mode == Mode::DryRun
            &&& !args.contains("--no-trash"@) ==> mode != Mode::Delete && !p.ajustes.no_trash
            &&& !args.contains("--list-dead"@) ==> !p.ajustes.list_dead
            &&& !args.contains("--incremental"@) ==> !p.ajustes.incremental
            &&& !args.contains("--keep-codegen"@) ==> p.ajustes.codegen
            &&& !args.contains("--keep-configs"@) ==> p.ajustes.keep_configs == usize::MAX
                && p.avisos.len() == 0
            &&& !args.contains("--retain-days"@) ==> p.ajustes.retain_days == 7
            &&& !args.contains("-h"@) && !args.contains("--help"@) ==> !p.ayuda
            &&& p.ajustes.path == "target"@ || args.contains(p.ajustes.path)
        }),
{
    lemma_sin_reap(args);
    lemma_lo_que_se_pide(sin_reap(args), Seq::empty(), por_defecto());
}

/// Lo que se escribe se hace: si ningún argumento lleva valor ni es la ayuda, `--apply`
/// lleva a la papelera, con `--no-trash` se borra, y cada una de las demás opciones
/// vale.
pub proof fn ley_lo_que_se_pide_se_hace(args: Seq<Seq<char>>)
    requires
        !args.contains("--keep-configs"@),
        !args.contains("--retain-days"@),
        !args.contains("-h"@),
        !args.contains("--help"@),
    ensures
        ({
            let p = pedido_de(args).ajustes;
            let mode = modo_de(p.apply, p.no_trash);
            &&& args.contains("--apply"@) && !args.contains("--no-trash"@) ==> mode == Mode::Trash
            &&& args.contains("--apply"@) && args.contains("--no-trash"@) ==> mode == Mode::Delete
            &&& args.contains("--list-dead"@) ==> p.list_dead
            &&& args.contains("--incremental"@) ==> p.incremental
            &&& args.contains("--keep-codegen"@) && !args.contains("--codegen"@) ==> !p.codegen
        }),
{
    lemma_sin_reap(args);
    lemma_lo_que_se_pide(sin_reap(args), Seq::empty(), por_defecto());
}

/// Quitar el nombre de la orden no quita nada más.
proof fn lemma_sin_reap(args: Seq<Seq<char>>)
    ensures
        forall|x: Seq<char>| #[trigger] sin_reap(args).contains(x) ==> args.contains(x),
        forall|x: Seq<char>| args.contains(x) && x != "reap"@ ==> #[trigger] sin_reap(args).contains(x),
        "reap"@ != "--apply"@ && "reap"@ != "--no-trash"@ && "reap"@ != "--list-dead"@ && "reap"@
            != "--incremental"@ && "reap"@ != "--keep-codegen"@,
{
    let cual = |a: Seq<char>| a != "reap"@;
    assert forall|x: Seq<char>| #[trigger] sin_reap(args).contains(x) implies args.contains(x) by {
        args.lemma_filter_contains_rev(cual, x);
    }
    assert forall|x: Seq<char>| args.contains(x) && x != "reap"@ implies #[trigger] sin_reap(
        args,
    ).contains(x) by {
        let i = choose|i: int| 0 <= i < args.len() && args[i] == x;
        args.lemma_filter_contains(cual, i);
    }
    reveal_strlit("reap");
    reveal_strlit("--apply");
    reveal_strlit("--no-trash");
    reveal_strlit("--list-dead");
    reveal_strlit("--incremental");
    reveal_strlit("--keep-codegen");
    assert("reap"@.len() == 4);
    assert("--apply"@.len() == 7);
    assert("--no-trash"@.len() == 10);
    assert("--list-dead"@.len() == 11);
    assert("--incremental"@.len() == 13);
    assert("--keep-codegen"@.len() == 14);
}

/// `--apply` sin `--no-trash` lleva a la papelera, venga lo que venga antes y después.
pub proof fn ley_apply_lleva_a_la_papelera(
    resto: Seq<Seq<char>>,
    avisos: Seq<usize>,
    a: AjustesVistos,
)
    requires
        !a.no_trash,
        !resto.contains("--no-trash"@),
    ensures
        ({
            let p = pedido_con(seq!["--apply"@] + resto, avisos, a).ajustes;
            modo_de(p.apply, p.no_trash) == Mode::Trash
        }),
{
    ley_cada_opcion_cambia_lo_suyo("--apply"@, resto, avisos, a);
    lemma_lo_que_se_pide(resto, avisos, AjustesVistos { apply: true, ..a });
}

/// Lo que se dice de unos ajustes y de un pedido es lo que llevan, campo a campo.
pub proof fn ley_los_ajustes_se_ven_como_son(r: Pedido)
    ensures
        r@.ayuda == r.ayuda,
        r@.avisos == r.avisos@,
        r@.ajustes.path == r.ajustes.path@,
        r@.ajustes.keep_configs == r.ajustes.keep_configs,
        r@.ajustes.list_dead == r.ajustes.list_dead,
        r@.ajustes.apply == r.ajustes.apply,
        r@.ajustes.no_trash == r.ajustes.no_trash,
        r@.ajustes.incremental == r.ajustes.incremental,
        r@.ajustes.codegen == r.ajustes.codegen,
        r@.ajustes.retain_days == r.ajustes.retain_days,
{
}

/// El modo: sin `--apply` sólo se informa, y con él se usa la papelera o no.
pub proof fn ley_el_modo(apply: bool, no_trash: bool)
    ensures
        modo_de(apply, no_trash) == Mode::DryRun <==> !apply,
        modo_de(apply, no_trash) == Mode::Trash <==> apply && !no_trash,
        modo_de(apply, no_trash) == Mode::Delete <==> apply && no_trash,
{
}

/// Unos textos prestados se ven uno a uno, en su orden.
pub proof fn ley_los_argumentos_se_ven_como_son(partes: Seq<&str>, i: int)
    ensures
        textos(partes).len() == partes.len(),
        0 <= i < partes.len() ==> textos(partes)[i] == partes[i]@,
{
}

} // verus!
