//! Tamaños en la unidad que mejor se lee.
//!
//! El tamaño se escribe con dos decimales y con la precisión de un número de
//! coma flotante de 64 bits: de un tamaño de más de 53 bits cuentan los 53
//! primeros.

use crate::texto;
use vstd::arithmetic::power2::*;
use vstd::prelude::*;
use vstd::string::*;

verus! {

/// El cociente redondeado al entero más cercano; si hay dos, al par.
pub open spec fn redondeado(a: nat, b: nat) -> nat {
    if 2 * (a % b) < b || (2 * (a % b) == b && (a / b) % 2 == 0) {
        a / b
    } else {
        a / b + 1
    }
}

/// Lo que vale el último de los 53 bits con que se guarda un número.
pub open spec fn paso(n: nat) -> nat
    decreases n,
{
    if n < 0x20_0000_0000_0000 {
        1
    } else {
        2 * paso(n / 2)
    }
}

/// El número que se guarda con 53 bits.
pub open spec fn con_53_bits(n: nat) -> nat {
    redondeado(n, paso(n)) * paso(n)
}

/// La unidad en que se escribe un tamaño: la mayor de las que caben en él.
pub open spec fn unidad(n: nat) -> (nat, Seq<char>) {
    if n < 0x400 {
        (1, "B"@)
    } else if n < 0x10_0000 {
        (0x400, "KB"@)
    } else if n < 0x4000_0000 {
        (0x10_0000, "MB"@)
    } else if n < 0x100_0000_0000 {
        (0x4000_0000, "GB"@)
    } else {
        (0x100_0000_0000, "TB"@)
    }
}

/// Cuántas centésimas de su unidad tiene un tamaño.
pub open spec fn centesimas(bytes: nat) -> nat {
    redondeado(100 * con_53_bits(bytes), unidad(con_53_bits(bytes)).0)
}

/// Un tamaño escrito: un número con dos decimales y su unidad.
pub open spec fn tamano(bytes: nat) -> Seq<char> {
    texto::decimal(centesimas(bytes) / 100) + seq!['.'] + texto::a_la_derecha(
        texto::decimal(centesimas(bytes) % 100),
        2,
        '0',
    ) + seq![' '] + unidad(con_53_bits(bytes)).1
}

fn redondear(a: u128, b: u128) -> (r: u128)
    requires
        0 < b <= 0x1_0000_0000_0000,
        a < 0x100_0000_0000_0000_0000,
    ensures
        r == redondeado(a as nat, b as nat),
        r <= a + 1,
{
    let q: u128 = a / b;
    let resto: u128 = a % b;
    proof {
        vstd::arithmetic::div_mod::lemma_div_is_ordered_by_denominator(a as int, 1, b as int);
    }
    if 2 * resto < b || (2 * resto == b && q % 2 == 0) {
        q
    } else {
        q + 1
    }
}

/// Lo que vale el último bit, y el mayor número al que se puede llegar al redondear.
proof fn lemma_paso(n: nat)
    ensures
        1 <= paso(n),
        n < 0x20_0000_0000_0000 * paso(n),
        n >= 0x20_0000_0000_0000 ==> 0x10_0000_0000_0000 * paso(n) <= n,
    decreases n,
{
    if n >= 0x20_0000_0000_0000 {
        lemma_paso(n / 2);
    }
}

fn ultimo_bit(n: u64) -> (r: u64)
    ensures
        r == paso(n as nat),
        1 <= r < 0x1000,
    decreases n,
{
    proof {
        lemma_paso(n as nat);
    }
    if n < 0x20_0000_0000_0000 {
        1
    } else {
        2 * ultimo_bit(n / 2)
    }
}

/// Escribe un tamaño en la unidad que mejor se lee.
pub fn human(bytes: u64) -> (r: String)
    ensures
        r@ == tamano(bytes as nat),
{
    let p: u128 = ultimo_bit(bytes) as u128;
    let q: u128 = redondear(bytes as u128, p);
    proof {
        lemma_53_bits(bytes as nat);
    }
    let v: u128 = q * p;
    let (base, nombre): (u128, &str) = if v < 0x400 {
        (1, "B")
    } else if v < 0x10_0000 {
        (0x400, "KB")
    } else if v < 0x4000_0000 {
        (0x10_0000, "MB")
    } else if v < 0x100_0000_0000 {
        (0x4000_0000, "GB")
    } else {
        (0x100_0000_0000, "TB")
    };
    let c: u128 = redondear(100 * v, base);
    proof {
        lemma_centesimas_acotadas(v as nat, base as nat);
    }
    let mut r = texto::escribir_decimal((c / 100) as u64);
    r.push('.');
    r.append(
        texto::alinear_derecha(texto::escribir_decimal((c % 100) as u64).as_str(), 2, '0').as_str(),
    );
    r.push(' ');
    r.append(nombre);
    assert(r@ =~= tamano(bytes as nat));
    r
}

/// El cociente redondeado se aparta del exacto en no más de media unidad.
proof fn lemma_redondeado(a: nat, b: nat)
    requires
        0 < b,
    ensures
        2 * (redondeado(a, b) * b) <= 2 * a + b,
        2 * a <= 2 * (redondeado(a, b) * b) + b,
{
    let q = a / b;
    vstd::arithmetic::div_mod::lemma_fundamental_div_mod(a as int, b as int);
    assert(q * b == b * q) by (nonlinear_arith);
    assert((q + 1) * b == q * b + b) by (nonlinear_arith);
}

/// Guardar con 53 bits cambia poco: no más de la mitad de lo que vale el último.
proof fn lemma_53_bits(n: nat)
    requires
        n <= u64::MAX,
    ensures
        con_53_bits(n) <= 0x1_0000_0000_0000_1000,
{
    lemma_paso(n);
    lemma_redondeado(n, paso(n));
}

/// El número que se escribe delante del punto cabe en 64 bits.
proof fn lemma_centesimas_acotadas(v: nat, base: nat)
    requires
        v <= 0x1_0000_0000_0000_1000,
        base == unidad(v).0,
    ensures
        redondeado(100 * v, base) / 100 <= u64::MAX,
{
}

/// Un tamaño de hasta 53 bits se escribe en la mayor unidad que cabe en él, con un
/// error de no más de media centésima.
pub proof fn ley_el_tamano_se_redondea_a_centesimas(bytes: nat)
    requires
        bytes < 0x20_0000_0000_0000,
    ensures
        con_53_bits(bytes) == bytes,
        ({
            let base = unidad(bytes).0;
            &&& bytes > 0 ==> base <= bytes
            &&& base < 0x100_0000_0000 ==> bytes < 0x400 * base
            &&& 2 * (centesimas(bytes) * base) <= 2 * (100 * bytes) + base
            &&& 2 * (100 * bytes) <= 2 * (centesimas(bytes) * base) + base
        }),
{
    assert(paso(bytes) == 1);
    assert(redondeado(bytes, 1) * 1 == bytes);
    lemma_redondeado(100 * bytes, unidad(bytes).0);
}

/// Redondear da el entero más cercano al cociente; de dos, el par. Y no hay otro.
pub proof fn ley_redondear_da_el_mas_cercano(a: nat, b: nat, c: nat)
    requires
        0 < b,
    ensures
        c == redondeado(a, b) <==> {
            &&& 2 * (c * b) <= 2 * a + b
            &&& 2 * a <= 2 * (c * b) + b
            &&& (2 * (c * b) == 2 * a + b || 2 * a == 2 * (c * b) + b) ==> c % 2 == 0
        },
{
    let r = redondeado(a, b);
    let q = a / b;
    lemma_redondeado(a, b);
    vstd::arithmetic::div_mod::lemma_fundamental_div_mod(a as int, b as int);
    assert(q * b == b * q) by (nonlinear_arith);
    assert((q + 1) * b == q * b + b) by (nonlinear_arith);
    if c != r {
        if c > r + 1 {
            assert(c * b >= r * b + 2 * b) by (nonlinear_arith)
                requires
                    c >= r + 2,
            ;
        } else if c + 1 < r {
            assert(r * b >= c * b + 2 * b) by (nonlinear_arith)
                requires
                    r >= c + 2,
            ;
        } else if c == r + 1 {
            assert(c * b == r * b + b) by (nonlinear_arith)
                requires
                    c == r + 1,
            ;
        } else {
            assert(r * b == c * b + b) by (nonlinear_arith)
                requires
                    r == c + 1,
            ;
        }
    }
}

/// Un número se guarda con 53 bits: exacto si cabe en ellos y, si no, redondeado al
/// múltiplo más cercano de la potencia de dos con que le sobran justo los demás.
pub proof fn ley_se_guardan_cincuenta_y_tres_bits(n: nat) -> (k: nat)
    ensures
        n < 0x20_0000_0000_0000 ==> con_53_bits(n) == n,
        n >= 0x20_0000_0000_0000 ==> {
            &&& 0x10_0000_0000_0000 * pow2(k) <= n < 0x20_0000_0000_0000 * pow2(k)
            &&& con_53_bits(n) == redondeado(n, pow2(k)) * pow2(k)
        },
    decreases n,
{
    let k = lemma_paso_es_potencia(n);
    lemma_paso(n);
    if n < 0x20_0000_0000_0000 {
        assert(redondeado(n, 1) * 1 == n);
    }
    k
}

/// Lo que vale el último bit es una potencia de dos.
proof fn lemma_paso_es_potencia(n: nat) -> (k: nat)
    ensures
        paso(n) == pow2(k),
    decreases n,
{
    if n < 0x20_0000_0000_0000 {
        lemma2_to64();
        0
    } else {
        let k = lemma_paso_es_potencia(n / 2);
        lemma_pow2_unfold(k + 1);
        k + 1
    }
}

/// Cómo se escribe un tamaño: con las centésimas más cercanas, de dos las pares, de la
/// mayor unidad que cabe en él.
pub proof fn ley_como_se_escribe_un_tamano(bytes: nat, c: nat)
    ensures
        ({
            let v = con_53_bits(bytes);
            let t = tamano(bytes);
            let numero = texto::decimal(c / 100) + seq!['.'] + texto::a_la_derecha(
                texto::decimal(c % 100),
                2,
                '0',
            ) + seq![' '];
            &&& v < 0x400 && c == 100 * v ==> t == numero + "B"@
            &&& 0x400 <= v < 0x10_0000 && c == redondeado(100 * v, 0x400) ==> t == numero + "KB"@
            &&& 0x10_0000 <= v < 0x4000_0000 && c == redondeado(100 * v, 0x10_0000) ==> t == numero
                + "MB"@
            &&& 0x4000_0000 <= v < 0x100_0000_0000 && c == redondeado(100 * v, 0x4000_0000) ==> t
                == numero + "GB"@
            &&& 0x100_0000_0000 <= v && c == redondeado(100 * v, 0x100_0000_0000) ==> t == numero
                + "TB"@
        }),
{
}

} // verus!
