//! El recorrido de un `target/`: qué toca hacer en cada momento y la cuenta de lo
//! que se lleva hecho.

use crate::cli::Opciones;
use crate::conjunto::Miembros;
use crate::fingerprint::Profile;
use crate::sweep::{self, Mode, Stats};
use crate::texto;
use vstd::prelude::*;
use vstd::string::*;

verus! {

/// La cuenta de una corrida.
pub struct Totales {
    pub plan: u64,
    pub liberado: u64,
    pub purgado: u64,
    pub fallos: usize,
    pub ocupados: Vec<String>,
}

/// Lo que dice una cuenta, como valor matemático.
#[verifier::ext_equal]
pub struct TotalesVistos {
    pub plan: u64,
    pub liberado: u64,
    pub purgado: u64,
    pub fallos: usize,
    pub ocupados: Seq<Seq<char>>,
}

impl View for Totales {
    type V = TotalesVistos;

    open spec fn view(&self) -> TotalesVistos {
        TotalesVistos {
            plan: self.plan,
            liberado: self.liberado,
            purgado: self.purgado,
            fallos: self.fallos,
            ocupados: texto::vistas(self.ocupados@),
        }
    }
}

impl TotalesVistos {
    /// La cuenta en cero.
    pub open spec fn cero() -> TotalesVistos {
        TotalesVistos { plan: 0, liberado: 0, purgado: 0, fallos: 0, ocupados: Seq::empty() }
    }

    /// ¿Caben las sumas de las dos cuentas?
    pub open spec fn caben(self, otro: TotalesVistos) -> bool {
        &&& self.plan + otro.plan <= u64::MAX
        &&& self.liberado + otro.liberado <= u64::MAX
        &&& self.purgado + otro.purgado <= u64::MAX
        &&& self.fallos + otro.fallos <= usize::MAX
    }

    /// La suma de dos cuentas.
    pub open spec fn mas(self, otro: TotalesVistos) -> TotalesVistos {
        TotalesVistos {
            plan: (self.plan + otro.plan) as u64,
            liberado: (self.liberado + otro.liberado) as u64,
            purgado: (self.purgado + otro.purgado) as u64,
            fallos: (self.fallos + otro.fallos) as usize,
            ocupados: self.ocupados + otro.ocupados,
        }
    }
}

impl Default for Totales {
    /// La cuenta en cero.
    fn default() -> (r: Totales)
        ensures
            r@ == TotalesVistos::cero(),
    {
        let r = Totales { plan: 0, liberado: 0, purgado: 0, fallos: 0, ocupados: Vec::new() };
        assert(r@ =~= TotalesVistos::cero());
        r
    }
}

impl Totales {
    /// Agrega a esta cuenta la de otro proyecto.
    pub fn sumar(&mut self, otro: &Totales)
        requires
            old(self)@.caben(otro@),
        ensures
            final(self)@ == old(self)@.mas(otro@),
    {
        let ghost antes = self@;
        self.plan += otro.plan;
        self.liberado += otro.liberado;
        self.purgado += otro.purgado;
        self.fallos += otro.fallos;
        let ghost nuevos = otro@.ocupados;
        assert(antes.ocupados + nuevos.take(0) =~= antes.ocupados);
        for i in 0..otro.ocupados.len()
            invariant
                self.plan == antes.plan + otro.plan,
                self.liberado == antes.liberado + otro.liberado,
                self.purgado == antes.purgado + otro.purgado,
                self.fallos == antes.fallos + otro.fallos,
                nuevos == otro@.ocupados,
                self@.ocupados == antes.ocupados + nuevos.take(i as int),
        {
            let ghost previos = self.ocupados@;
            self.ocupados.push(otro.ocupados[i].clone());
            assert(texto::vistas(self.ocupados@) =~= texto::vistas(previos).push(
                nuevos[i as int],
            ));
            assert(nuevos.take(i + 1) =~= nuevos.take(i as int).push(nuevos[i as int]));
        }
        assert(nuevos.take(nuevos.len() as int) =~= nuevos);
        assert(self@ =~= antes.mas(otro@));
    }

    /// Anota lo que liberó la purga de la papelera.
    pub fn anotar_purga(&mut self, bytes: u64)
        ensures
            final(self)@ == (TotalesVistos { purgado: bytes, ..old(self)@ }),
    {
        self.purgado = bytes;
    }

    /// Anota un perfil que no se tocó porque hay un build en curso.
    pub fn anotar_ocupado(&mut self, label: &str)
        ensures
            final(self)@ == (TotalesVistos {
                ocupados: old(self)@.ocupados.push(label@),
                ..old(self)@
            }),
    {
        let ghost antes = self.ocupados@;
        self.ocupados.push(label.to_owned());
        assert(texto::vistas(self.ocupados@) =~= texto::vistas(antes).push(label@));
    }

    /// Anota un perfil barrido: los bytes de su plan y cómo salió.
    pub fn anotar_barrido(&mut self, plan: u64, stats: Stats)
        requires
            old(self).plan + plan <= u64::MAX,
            old(self).liberado + stats.liberados <= u64::MAX,
            old(self).fallos + stats.fallos <= usize::MAX,
        ensures
            final(self)@ == (TotalesVistos {
                plan: (old(self).plan + plan) as u64,
                liberado: (old(self).liberado + stats.liberados) as u64,
                fallos: (old(self).fallos + stats.fallos) as usize,
                ..old(self)@
            }),
    {
        self.plan += plan;
        self.liberado += stats.liberados;
        self.fallos += stats.fallos;
    }
}

/// Qué hacer con un `target/` una vez leídos sus paquetes y sus perfiles.
#[derive(Clone, Copy, Debug, PartialEq, Eq, Structural)]
pub enum Arranque {
    /// No se sabe qué paquetes son del workspace: es un error, y no se toca nada.
    SinPaquetes,
    /// No hay nada compilado: no hay nada que hacer.
    SinPerfiles,
    /// Analizar los perfiles, purgando antes la papelera si así se dice.
    ///
    /// La papelera vencida se purga antes de nada: es espacio ya condenado y así el
    /// informe de la corrida no lo cuenta dos veces.
    Seguir { purgar: bool },
}

/// ¿Se purga la papelera? Sólo si se va a tocar algo; pedir la lista de lo muerto
/// no borra nada.
pub open spec fn hay_que_purgar(opts: Opciones) -> bool {
    opts.mode != Mode::DryRun && !opts.list_dead
}

/// Decide qué hacer con un `target/`.
pub fn arrancar(members: &Miembros, perfiles: &Vec<Profile>, opts: &Opciones) -> (r: Arranque)
    ensures
        r == if members@ == Map::<Seq<char>, Set<Seq<char>>>::empty() {
            Arranque::SinPaquetes
        } else if perfiles@.len() == 0 {
            Arranque::SinPerfiles
        } else {
            Arranque::Seguir { purgar: hay_que_purgar(*opts) }
        },
{
    if members.is_empty() {
        Arranque::SinPaquetes
    } else if perfiles.len() == 0 {
        Arranque::SinPerfiles
    } else {
        Arranque::Seguir { purgar: opts.mode != Mode::DryRun && !opts.list_dead }
    }
}

/// Lo que se sabe de un perfil.
#[derive(Clone, Copy, Debug, PartialEq, Eq, Structural)]
pub enum Estado {
    /// Se clasificó su `deps/`.
    Analizado,
    /// Se intentó además tomar su cerrojo: lo que devolvió, o nada si no hay.
    Consultado { flock: Option<i32> },
}

/// Lo que toca hacer con un perfil.
#[derive(Clone, Copy, Debug, PartialEq, Eq, Structural)]
pub enum Accion {
    /// Imprimir las rutas de lo muerto.
    Listar,
    /// Nada: no tiene unidades del workspace.
    NoTocar,
    /// Intentar tomar el cerrojo de Cargo.
    Consultar,
    /// Anotarlo como ocupado: hay un build en curso.
    Omitir,
    /// Planificar y ejecutar.
    Barrer,
}

/// Lo que toca hacer con un perfil según lo que se sabe de él.
pub open spec fn accion_de(list_dead: bool, sin_raices: bool, estado: Estado) -> Accion {
    if list_dead {
        Accion::Listar
    } else if sin_raices {
        Accion::NoTocar
    } else {
        match estado {
            Estado::Analizado => Accion::Consultar,
            Estado::Consultado { flock } => if flock is Some && flock != Some(0i32) {
                Accion::Omitir
            } else {
                Accion::Barrer
            },
        }
    }
}

/// Decide qué hacer con un perfil.
///
/// Nunca se recolecta mientras Cargo compila: estaríamos borrando artefactos que
/// rustc está escribiendo en ese mismo instante.
pub fn siguiente(list_dead: bool, sin_raices: bool, estado: Estado) -> (r: Accion)
    ensures
        r == accion_de(list_dead, sin_raices, estado),
{
    if list_dead {
        return Accion::Listar;
    }
    if sin_raices {
        return Accion::NoTocar;
    }
    match estado {
        Estado::Analizado => Accion::Consultar,
        Estado::Consultado { flock } => if sweep::build_en_curso(flock) {
            Accion::Omitir
        } else {
            Accion::Barrer
        },
    }
}

/// Un perfil sólo se barre si se consultó su cerrojo y no hay un build en curso, si
/// tiene unidades del workspace, y si no se pidió sólo la lista.
pub proof fn ley_cuando_se_barre(list_dead: bool, sin_raices: bool, estado: Estado)
    ensures
        accion_de(list_dead, sin_raices, estado) == Accion::Barrer <==> !list_dead && !sin_raices
            && (estado == (Estado::Consultado { flock: None }) || estado == (Estado::Consultado {
            flock: Some(0i32),
        })),
{
}

/// Pedir la lista de lo muerto no borra nada: ni se purga ni se barre.
pub proof fn ley_listar_no_borra(opts: Opciones, sin_raices: bool, estado: Estado)
    requires
        opts.list_dead,
    ensures
        !hay_que_purgar(opts),
        accion_de(opts.list_dead, sin_raices, estado) == Accion::Listar,
{
}

/// La papelera se purga justo cuando se va a tocar algo y no se pidió sólo la lista.
pub proof fn ley_cuando_se_purga(opts: Opciones)
    ensures
        hay_que_purgar(opts) <==> !opts.list_dead && (opts.mode == Mode::Trash || opts.mode
            == Mode::Delete),
{
}

/// Qué toca hacer con un perfil, según lo que se sabe de él.
pub proof fn ley_que_toca_hacer(list_dead: bool, sin_raices: bool, estado: Estado)
    ensures
        accion_de(list_dead, sin_raices, estado) == Accion::Listar <==> list_dead,
        accion_de(list_dead, sin_raices, estado) == Accion::NoTocar <==> !list_dead && sin_raices,
        accion_de(list_dead, sin_raices, estado) == Accion::Consultar <==> !list_dead && !sin_raices
            && estado == Estado::Analizado,
        accion_de(list_dead, sin_raices, estado) == Accion::Omitir <==> {
            &&& !list_dead && !sin_raices
            &&& estado matches Estado::Consultado { flock: Some(n) } && n != 0
        },
{
}

/// Al juntar dos cuentas se suma cada cantidad con la suya, y los ocupados van unos
/// tras otros.
pub proof fn ley_juntar_cuentas(a: TotalesVistos, b: TotalesVistos)
    requires
        a.plan + b.plan <= u64::MAX,
        a.liberado + b.liberado <= u64::MAX,
        a.purgado + b.purgado <= u64::MAX,
        a.fallos + b.fallos <= usize::MAX,
    ensures
        a.caben(b),
        a.mas(b).plan == a.plan + b.plan,
        a.mas(b).liberado == a.liberado + b.liberado,
        a.mas(b).purgado == a.purgado + b.purgado,
        a.mas(b).fallos == a.fallos + b.fallos,
        a.mas(b).ocupados == a.ocupados + b.ocupados,
        a.mas(TotalesVistos::cero()) == a,
        TotalesVistos::cero().mas(a) == a,
{
    assert(a.mas(TotalesVistos::cero()) =~= a);
    assert(TotalesVistos::cero().mas(a) =~= a);
}

/// Una cuenta se ve como es, campo a campo; y la que empieza está en cero.
pub proof fn ley_las_cuentas_se_ven_como_son(t: Totales)
    ensures
        t@.plan == t.plan,
        t@.liberado == t.liberado,
        t@.purgado == t.purgado,
        t@.fallos == t.fallos,
        t@.ocupados == texto::vistas(t.ocupados@),
        TotalesVistos::cero().plan == 0,
        TotalesVistos::cero().liberado == 0,
        TotalesVistos::cero().purgado == 0,
        TotalesVistos::cero().fallos == 0,
        TotalesVistos::cero().ocupados.len() == 0,
{
}

} // verus!
