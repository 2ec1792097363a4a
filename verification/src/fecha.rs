//! Instantes y fechas del calendario gregoriano.

use crate::texto;
use vstd::prelude::*;
use vstd::string::*;

verus! {

/// Un instante: segundos desde el 1 de enero de 1970, negativos si es anterior,
/// y los nanosegundos que pasan del segundo.
#[derive(Clone, Copy, Debug, PartialEq, Eq, Structural)]
pub struct Instante {
    pub segundos: i64,
    pub nanos: u32,
}

impl Instante {
    /// ¿Es estrictamente anterior a otro?
    pub open spec fn antes_que(self, otro: Instante) -> bool {
        self.segundos < otro.segundos || (self.segundos == otro.segundos && self.nanos < otro.nanos)
    }

    /// ¿Es estrictamente anterior a otro?
    pub fn antes(&self, otro: &Instante) -> (r: bool)
        ensures
            r == self.antes_que(*otro),
    {
        self.segundos < otro.segundos || (self.segundos == otro.segundos && self.nanos < otro.nanos)
    }
}

/// ¿Es bisiesto el año `y`?
pub open spec fn bisiesto(y: int) -> bool {
    y % 4 == 0 && (y % 100 != 0 || y % 400 == 0)
}

/// Días que tiene el mes `m` del año `y`.
pub open spec fn dias_del_mes(y: int, m: int) -> int {
    if m == 2 {
        if bisiesto(y) {
            29
        } else {
            28
        }
    } else if m == 4 || m == 6 || m == 9 || m == 11 {
        30
    } else {
        31
    }
}

/// Días que tiene el año `y`.
pub open spec fn dias_del_anio(y: int) -> int {
    if bisiesto(y) {
        366
    } else {
        365
    }
}

/// ¿Es `(y, m, d)` una fecha que existe en el calendario?
pub open spec fn fecha_valida(y: int, m: int, d: int) -> bool {
    1 <= m <= 12 && 1 <= d <= dias_del_mes(y, m)
}

/// Días del año `y` anteriores al primer día del mes `m`.
pub open spec fn dias_antes_del_mes(y: int, m: int) -> int
    decreases m,
{
    if m <= 1 {
        0
    } else {
        dias_antes_del_mes(y, m - 1) + dias_del_mes(y, m - 1)
    }
}

/// Días entre el 1 de enero del año 1970 y el 1 de enero del año `y`;
/// negativo si `y` es anterior.
pub open spec fn dias_antes_del_anio(y: int) -> int
    decreases (if y >= 1970 { y - 1970 } else { 1970 - y }),
{
    if y == 1970 {
        0
    } else if y > 1970 {
        dias_antes_del_anio(y - 1) + dias_del_anio(y - 1)
    } else {
        dias_antes_del_anio(y + 1) - dias_del_anio(y)
    }
}

/// Número de día de una fecha: días desde el 1 de enero de 1970.
pub open spec fn numero_de_dia(y: int, m: int, d: int) -> int {
    dias_antes_del_anio(y) + dias_antes_del_mes(y, m) + d - 1
}

/// Forma cerrada de los días anteriores a un año.
proof fn lemma_dias_antes_del_anio(y: int)
    ensures
        dias_antes_del_anio(y) == 365 * (y - 1970) + ((y - 1) / 4 - 492) - ((y - 1) / 100 - 19) + (
        (y - 1) / 400 - 4),
    decreases (if y >= 1970 { y - 1970 } else { 1970 - y }),
{
    if y == 1970 {
    } else if y > 1970 {
        lemma_dias_antes_del_anio(y - 1);
    } else {
        lemma_dias_antes_del_anio(y + 1);
    }
}

/// Dentro de una era de 400 años que empieza en marzo, la fórmula de Hinnant da
/// el año al que pertenece el día `doe`, y lo que sobra cabe en ese año.
proof fn lemma_anio_de_la_era(doe: int, yoe: int)
    requires
        0 <= doe < 146_097,
        yoe == (doe - doe / 1460 + doe / 36_524 - doe / 146_096) / 365,
    ensures
        0 <= yoe < 400,
        yoe / 400 == 0,
        0 <= doe - (365 * yoe + yoe / 4 - yoe / 100) <= 365,
        doe - (365 * yoe + yoe / 4 - yoe / 100) == 365 ==> bisiesto(yoe + 1),
{
    let c: int = if doe / 36_524 > 3 {
        3
    } else {
        doe / 36_524
    };
    let del_siglo = doe - 36_524 * c;
    let q = del_siglo / 1461;
    let del_ciclo = del_siglo - 1461 * q;
    let r: int = if del_ciclo / 365 > 3 {
        3
    } else {
        del_ciclo / 365
    };
    let k = del_ciclo - 365 * r;
    assert(0 <= del_siglo <= 36_524);
    assert(0 <= q <= 24);
    assert(0 <= del_ciclo <= 1460);
    assert(0 <= k <= 365);
    let t = 100 * c + 4 * q + r;
    let o = 24 * c + q + 365 * r + k;
    assert(doe == 1460 * (25 * c + q) + o);
    let uno = o / 1460;
    assert(0 <= uno <= 1);
    assert(doe / 1460 == 25 * c + q + uno);
    assert(doe / 36_524 - doe / 146_096 == c);
    assert(doe - doe / 1460 + doe / 36_524 - doe / 146_096 == 365 * t + (k - uno));
    assert(0 <= k - uno < 365);
    assert(yoe == t);
    assert(t / 4 == 25 * c + q);
    assert(t / 100 == c);
    assert(doe - (365 * yoe + yoe / 4 - yoe / 100) == k);
}

/// El mes y el día que la fórmula de Hinnant saca del día `doy` de un año que
/// empieza en marzo: los doce tramos empiezan donde dice `(153 * mp + 2) / 5`.
proof fn lemma_mes_y_dia(y: int, doy: int, mp: int)
    requires
        0 <= doy <= 365,
        doy == 365 ==> bisiesto(y + 1),
        mp == (5 * doy + 2) / 153,
    ensures
        0 <= mp <= 11,
        0 <= (153 * mp + 2) / 5 <= doy,
        ({
            let d = doy - (153 * mp + 2) / 5 + 1;
            let m = if mp < 10 {
                mp + 3
            } else {
                mp - 9
            };
            let anio = if m <= 2 {
                y + 1
            } else {
                y
            };
            &&& fecha_valida(anio, m, d)
            &&& numero_de_dia(anio, m, d) == dias_antes_del_anio(y + 1) - 306 + doy
        }),
{
    assert(dias_antes_del_anio(y + 1) == dias_antes_del_anio(y) + dias_del_anio(y)) by {
        lemma_dias_antes_del_anio(y);
        lemma_dias_antes_del_anio(y + 1);
    }
    reveal_with_fuel(dias_antes_del_mes, 13);
    let d = doy - (153 * mp + 2) / 5 + 1;
    if mp == 0 {
    } else if mp == 1 {
    } else if mp == 2 {
    } else if mp == 3 {
    } else if mp == 4 {
    } else if mp == 5 {
    } else if mp == 6 {
    } else if mp == 7 {
    } else if mp == 8 {
    } else if mp == 9 {
    } else if mp == 10 {
    } else {
        assert(mp == 11);
    }
}

/// Primer día de marzo del año `400 * era + yoe`, contado desde el 1 de marzo
/// del año cero.
proof fn lemma_marzo(era: int, yoe: int)
    requires
        0 <= yoe < 400,
    ensures
        dias_antes_del_anio(400 * era + yoe + 1) - 306 == 146_097 * era + 365 * yoe + yoe / 4 - yoe
            / 100 - 719_468,
{
    let y = 400 * era + yoe;
    lemma_dias_antes_del_anio(y + 1);
    assert(y / 4 == 100 * era + yoe / 4);
    assert(y / 100 == 4 * era + yoe / 100);
    assert(y / 400 == era);
}

/// El calendario se repite cada 400 años.
proof fn lemma_bisiesto_por_eras(era: int, y: int)
    ensures
        bisiesto(400 * era + y) == bisiesto(y),
{
    vstd::arithmetic::div_mod::lemma_mod_multiples_vanish(100 * era, y, 4);
    vstd::arithmetic::div_mod::lemma_mod_multiples_vanish(4 * era, y, 100);
    vstd::arithmetic::div_mod::lemma_mod_multiples_vanish(era, y, 400);
}

/// Cociente por defecto de `z` entre los días de una era.
fn era_de(z: i64) -> (era: i64)
    requires
        z >= i64::MIN + 146_096,
    ensures
        era * 146_097 <= z < era * 146_097 + 146_097,
        -100_000_000_000_000 < era < 100_000_000_000_000,
{
    if z >= 0 {
        z / 146_097
    } else {
        (z - 146_096) / 146_097
    }
}

/// Conversión de días desde epoch a fecha civil (algoritmo de Howard Hinnant).
///
/// Devuelve la fecha del calendario cuyo número de día es `z`.
pub fn civil_from_days(z: i64) -> (r: (i64, u32, u32))
    requires
        z <= i64::MAX - 719_468,
    ensures
        fecha_valida(r.0 as int, r.1 as int, r.2 as int),
        numero_de_dia(r.0 as int, r.1 as int, r.2 as int) == z,
{
    let ghost dia = z as int;
    let z: i64 = z + 719_468;
    let era: i64 = era_de(z);
    let doe: u64 = (z - era * 146_097) as u64;
    let yoe: u64 = (doe - doe / 1460 + doe / 36_524 - doe / 146_096) / 365;
    proof {
        lemma_anio_de_la_era(doe as int, yoe as int);
    }
    let y: i64 = yoe as i64 + era * 400;
    let doy: u64 = doe - (365 * yoe + yoe / 4 - yoe / 100);
    let mp: u64 = (5 * doy + 2) / 153;
    proof {
        lemma_bisiesto_por_eras(era as int, yoe + 1);
        lemma_mes_y_dia(y as int, doy as int, mp as int);
        lemma_marzo(era as int, yoe as int);
    }
    let d: u32 = (doy - (153 * mp + 2) / 5 + 1) as u32;
    let m: u32 = if mp < 10 {
        (mp + 3) as u32
    } else {
        (mp - 9) as u32
    };
    (if m <= 2 {
        y + 1
    } else {
        y
    }, m, d)
}

/// ¿Es la primera fecha anterior a la segunda, comparando año, mes y día?
pub open spec fn fecha_antes(a: (int, int, int), b: (int, int, int)) -> bool {
    a.0 < b.0 || (a.0 == b.0 && (a.1 < b.1 || (a.1 == b.1 && a.2 < b.2)))
}

/// Una fecha cae dentro de su mes, y el mes dentro de su año.
proof fn lemma_dentro_del_anio(y: int, m: int, d: int)
    requires
        fecha_valida(y, m, d),
    ensures
        0 <= dias_antes_del_mes(y, m) + d - 1 < dias_del_anio(y),
{
    reveal_with_fuel(dias_antes_del_mes, 13);
}

/// Los meses de un año van uno detrás de otro.
proof fn lemma_meses_en_orden(y: int, m: int, n: int)
    requires
        1 <= m < n <= 12,
    ensures
        dias_antes_del_mes(y, m) + dias_del_mes(y, m) <= dias_antes_del_mes(y, n),
    decreases n,
{
    if m < n - 1 {
        lemma_meses_en_orden(y, m, n - 1);
    }
}

/// Los años van uno detrás de otro.
proof fn lemma_anios_en_orden(y: int, z: int)
    requires
        y < z,
    ensures
        dias_antes_del_anio(y) + dias_del_anio(y) <= dias_antes_del_anio(z),
    decreases z - y,
{
    lemma_dias_antes_del_anio(y);
    lemma_dias_antes_del_anio(y + 1);
    if y + 1 < z {
        lemma_anios_en_orden(y + 1, z);
    }
}

/// El número de día sigue el orden de las fechas: la anterior tiene un número
/// menor, y dos fechas con el mismo número son la misma.
pub proof fn ley_los_dias_siguen_a_las_fechas(a: (int, int, int), b: (int, int, int))
    requires
        fecha_valida(a.0, a.1, a.2),
        fecha_valida(b.0, b.1, b.2),
    ensures
        fecha_antes(a, b) <==> numero_de_dia(a.0, a.1, a.2) < numero_de_dia(b.0, b.1, b.2),
        numero_de_dia(a.0, a.1, a.2) == numero_de_dia(b.0, b.1, b.2) ==> a == b,
{
    lemma_dentro_del_anio(a.0, a.1, a.2);
    lemma_dentro_del_anio(b.0, b.1, b.2);
    if a.0 < b.0 {
        lemma_anios_en_orden(a.0, b.0);
    } else if b.0 < a.0 {
        lemma_anios_en_orden(b.0, a.0);
    } else if a.1 < b.1 {
        lemma_meses_en_orden(a.0, a.1, b.1);
    } else if b.1 < a.1 {
        lemma_meses_en_orden(a.0, b.1, a.1);
    }
}

/// Al día siguiente le toca el número siguiente.
pub proof fn ley_el_dia_siguiente(y: int, m: int, d: int)
    requires
        fecha_valida(y, m, d),
    ensures
        ({
            let siguiente = if d < dias_del_mes(y, m) {
                (y, m, d + 1)
            } else if m < 12 {
                (y, m + 1, 1)
            } else {
                (y + 1, 1, 1)
            };
            &&& fecha_valida(siguiente.0, siguiente.1, siguiente.2)
            &&& numero_de_dia(siguiente.0, siguiente.1, siguiente.2) == numero_de_dia(y, m, d) + 1
        }),
{
    reveal_with_fuel(dias_antes_del_mes, 13);
    lemma_dias_antes_del_anio(y);
    lemma_dias_antes_del_anio(y + 1);
}

/// Una fecha escrita como `aaaa-mm-dd`.
pub open spec fn fecha_escrita(y: nat, m: nat, d: nat) -> Seq<char> {
    texto::a_la_derecha(texto::decimal(y), 4, '0') + seq!['-'] + texto::a_la_derecha(
        texto::decimal(m),
        2,
        '0',
    ) + seq!['-'] + texto::a_la_derecha(texto::decimal(d), 2, '0')
}

fn escribir_fecha(y: u64, m: u64, d: u64) -> (r: String)
    ensures
        r@ == fecha_escrita(y as nat, m as nat, d as nat),
{
    let mut r = texto::alinear_derecha(texto::escribir_decimal(y).as_str(), 4, '0');
    r.push('-');
    r.append(texto::alinear_derecha(texto::escribir_decimal(m).as_str(), 2, '0').as_str());
    r.push('-');
    r.append(texto::alinear_derecha(texto::escribir_decimal(d).as_str(), 2, '0').as_str());
    assert(r@ =~= fecha_escrita(y as nat, m as nat, d as nat));
    r
}

/// ¿Es el texto la fecha de un instante, escrita como `aaaa-mm-dd`? De un instante
/// anterior al 1 de enero de 1970 sólo se escribe `?`.
pub open spec fn es_fecha_de(escrita: Seq<char>, t: Instante) -> bool {
    if t.segundos < 0 {
        escrita == "?"@
    } else {
        exists|y: nat, m: nat, d: nat|
            fecha_valida(y as int, m as int, d as int) && numero_de_dia(
                y as int,
                m as int,
                d as int,
            ) == t.segundos as int / 86_400 && escrita == #[trigger] fecha_escrita(y, m, d)
    }
}

/// Formatea un instante como fecha, en UTC.
pub fn fecha(t: Instante) -> (r: String)
    ensures
        es_fecha_de(r@, t),
{
    if t.segundos < 0 {
        return "?".to_owned();
    }
    let (y, m, d) = civil_from_days(t.segundos / 86_400);
    proof {
        reveal_with_fuel(dias_antes_del_mes, 2);
        assert(numero_de_dia(1970, 1, 1) == 0);
        ley_los_dias_siguen_a_las_fechas((y as int, m as int, d as int), (1970, 1, 1));
    }
    let r = escribir_fecha(y as u64, m as u64, d as u64);
    assert(r@ == fecha_escrita(y as nat, m as nat, d as nat));
    r
}

/// Un instante tiene una sola fecha.
pub proof fn ley_un_instante_tiene_una_sola_fecha(a: Seq<char>, b: Seq<char>, t: Instante)
    requires
        es_fecha_de(a, t),
        es_fecha_de(b, t),
    ensures
        a == b,
{
    if t.segundos >= 0 {
        let (y, m, d) = choose|y: nat, m: nat, d: nat|
            fecha_valida(y as int, m as int, d as int) && numero_de_dia(
                y as int,
                m as int,
                d as int,
            ) == t.segundos as int / 86_400 && a == #[trigger] fecha_escrita(y, m, d);
        let (z, n, e) = choose|y: nat, m: nat, d: nat|
            fecha_valida(y as int, m as int, d as int) && numero_de_dia(
                y as int,
                m as int,
                d as int,
            ) == t.segundos as int / 86_400 && b == #[trigger] fecha_escrita(y, m, d);
        ley_los_dias_siguen_a_las_fechas(
            (y as int, m as int, d as int),
            (z as int, n as int, e as int),
        );
    }
}

/// El orden de los instantes es el del tiempo: decide el segundo y, en el mismo
/// segundo, el nanosegundo.
pub proof fn ley_los_instantes_siguen_al_tiempo(a: Instante, b: Instante)
    ensures
        a.segundos < b.segundos ==> a.antes_que(b) && !b.antes_que(a),
        a.segundos == b.segundos ==> (a.antes_que(b) <==> a.nanos < b.nanos),
        a.nanos < 1_000_000_000 && b.nanos < 1_000_000_000 ==> (a.antes_que(b) <==> a.segundos
            * 1_000_000_000 + a.nanos < b.segundos * 1_000_000_000 + b.nanos),
{
}

/// El calendario: el día cero es el 1 de enero de 1970, y cada día lo sigue otro del
/// mismo mes, salvo el último de cada mes. Febrero tiene 29 los años múltiplos de
/// cuatro, excepto los de siglo que no lo son de cuatrocientos.
pub proof fn ley_el_calendario_gregoriano(y: int, m: int, d: int)
    ensures
        numero_de_dia(1970, 1, 1) == 0,
        fecha_valida(y, m, d) ==> 1 <= m <= 12 && 1 <= d <= 31,
        1 <= m <= 12 && 1 <= d ==> ({
            let largo = if m == 2 {
                if y % 400 == 0 || (y % 4 == 0 && y % 100 != 0) {
                    29int
                } else {
                    28int
                }
            } else if m == 4 || m == 6 || m == 9 || m == 11 {
                30int
            } else {
                31int
            };
            &&& fecha_valida(y, m, d) <==> d <= largo
            &&& d < largo ==> numero_de_dia(y, m, d + 1) == numero_de_dia(y, m, d) + 1
            &&& d == largo && m < 12 ==> numero_de_dia(y, m + 1, 1) == numero_de_dia(y, m, d) + 1
            &&& d == largo && m == 12 ==> numero_de_dia(y + 1, 1, 1) == numero_de_dia(y, m, d) + 1
        }),
{
    reveal_with_fuel(dias_antes_del_mes, 2);
    assert(y % 400 == 0 ==> y % 4 == 0);
    if fecha_valida(y, m, d) {
        ley_el_dia_siguiente(y, m, d);
    }
}

/// Una fecha hasta el año 9999 se escribe `aaaa-mm-dd`: cuatro cifras, guion, dos
/// cifras, guion y dos cifras.
pub proof fn ley_como_se_escribe_una_fecha(y: nat, m: nat, d: nat)
    requires
        y < 10_000,
        m < 100,
        d < 100,
    ensures
        ({
            let cifras = "0123456789"@;
            let s = fecha_escrita(y, m, d);
            &&& s.len() == 10
            &&& s[0] == cifras[y as int / 1000]
            &&& s[1] == cifras[y as int / 100 % 10]
            &&& s[2] == cifras[y as int / 10 % 10]
            &&& s[3] == cifras[y as int % 10]
            &&& s[4] == '-'
            &&& s[5] == cifras[m as int / 10]
            &&& s[6] == cifras[m as int % 10]
            &&& s[7] == '-'
            &&& s[8] == cifras[d as int / 10]
            &&& s[9] == cifras[d as int % 10]
        }),
{
    lemma_cifras(y);
    lemma_cifras(m);
    lemma_cifras(d);
}

/// Una fecha posterior al año 9999 se escribe con todas las cifras de su año.
pub proof fn ley_el_anio_no_se_recorta(y: nat, m: nat, d: nat)
    requires
        y >= 10_000,
        m < 100,
        d < 100,
    ensures
        ({
            let cifras = "0123456789"@;
            fecha_escrita(y, m, d) == texto::decimal(y) + seq![
                '-',
                cifras[m as int / 10],
                cifras[m as int % 10],
                '-',
                cifras[d as int / 10],
                cifras[d as int % 10],
            ]
        }),
{
    lemma_cifras(m);
    lemma_cifras(d);
    lemma_cifras(y);
    let cifras = "0123456789"@;
    assert(fecha_escrita(y, m, d) =~= texto::decimal(y) + seq![
        '-',
        cifras[m as int / 10],
        cifras[m as int % 10],
        '-',
        cifras[d as int / 10],
        cifras[d as int % 10],
    ]);
}

/// Las cifras de un número, rellenas con ceros a la izquierda.
proof fn lemma_cifras(n: nat)
    ensures
        ({
            let cifras = "0123456789"@;
            let dos = texto::a_la_derecha(texto::decimal(n), 2, '0');
            let cuatro = texto::a_la_derecha(texto::decimal(n), 4, '0');
            &&& n < 100 ==> dos =~= seq![cifras[n as int / 10], cifras[n as int % 10]]
            &&& n < 10_000 ==> cuatro =~= seq![
                cifras[n as int / 1000],
                cifras[n as int / 100 % 10],
                cifras[n as int / 10 % 10],
                cifras[n as int % 10],
            ]
            &&& n >= 10_000 ==> cuatro == texto::decimal(n)
        }),
{
    reveal_strlit("0123456789");
    reveal_with_fuel(texto::decimal, 6);
    let cifras = "0123456789"@;
    assert forall|d: nat| d < 10 implies cifras[d as int] == #[trigger] texto::digito(d) by {
        if d == 0 {
        } else if d == 1 {
        } else if d == 2 {
        } else if d == 3 {
        } else if d == 4 {
        } else if d == 5 {
        } else if d == 6 {
        } else if d == 7 {
        } else if d == 8 {
        } else {
            assert(d == 9);
        }
    }
}

/// Dentro de un mismo día la fecha no cambia.
pub proof fn ley_en_un_dia_la_fecha_no_cambia(a: Seq<char>, t: Instante, u: Instante)
    requires
        0 <= t.segundos,
        0 <= u.segundos,
        es_fecha_de(a, t),
        t.segundos as int / 86_400 == u.segundos as int / 86_400,
    ensures
        es_fecha_de(a, u),
{
    let (y, m, d) = choose|y: nat, m: nat, d: nat|
        fecha_valida(y as int, m as int, d as int) && numero_de_dia(y as int, m as int, d as int)
            == t.segundos as int / 86_400 && a == #[trigger] fecha_escrita(y, m, d);
    assert(a == fecha_escrita(y, m, d));
}

/// La fecha escrita de un instante es la de su número de día, en UTC; lo anterior al
/// día cero no tiene fecha.
pub proof fn ley_la_fecha_es_la_del_dia(y: nat, m: nat, d: nat, t: Instante)
    ensures
        t.segundos < 0 ==> (es_fecha_de(seq!['?'], t)),
        t.segundos >= 0 && fecha_valida(y as int, m as int, d as int) && numero_de_dia(
            y as int,
            m as int,
            d as int,
        ) * 86_400 <= t.segundos < (numero_de_dia(y as int, m as int, d as int) + 1) * 86_400
            ==> es_fecha_de(fecha_escrita(y, m, d), t),
{
    reveal_strlit("?");
    assert("?"@ =~= seq!['?']);
    let n = numero_de_dia(y as int, m as int, d as int);
    assert(n * 86_400 <= t.segundos < (n + 1) * 86_400 ==> t.segundos as int / 86_400 == n);
    assert(fecha_escrita(y, m, d) == fecha_escrita(y, m, d));
}

} // verus!
