//! Operaciones sobre texto.
//!
//! El texto se modela como la secuencia de sus caracteres. Los nombres que da
//! el sistema de archivos llegan como bytes, porque pueden no ser UTF-8.

use vstd::prelude::*;
use vstd::string::*;
use vstd::utf8::*;

verus! {

/// `String::push` agrega el carácter al final del texto.
pub assume_specification[ String::push ](s: &mut String, ch: char)
    ensures
        final(s)@ == old(s)@.push(ch),
;

/// El texto que codifican unos bytes, si son UTF-8.
pub open spec fn texto_de_bytes(bytes: Seq<u8>) -> Option<Seq<char>> {
    if valid_utf8(bytes) {
        Some(decode_utf8(bytes))
    } else {
        None
    }
}

/// Llama a `std::str::from_utf8`: da el texto que codifican los bytes, y nada si
/// no son UTF-8.
#[verifier::external_body]
pub(crate) fn desde_utf8(bytes: &Vec<u8>) -> (r: Option<&str>)
    ensures
        match r {
            Some(s) => texto_de_bytes(bytes@) == Some(s@),
            None => texto_de_bytes(bytes@) is None,
        },
{
    std::str::from_utf8(bytes).ok()
}

/// El texto en que `String::from_utf8_lossy` convierte unos bytes.
pub uninterp spec fn con_reemplazos(bytes: Seq<u8>) -> Seq<char>;

/// Llama a `String::from_utf8_lossy`: el texto depende sólo de los bytes, y es el
/// que codifican si son UTF-8; lo que no lo es se reemplaza.
#[verifier::external_body]
pub(crate) fn reemplazando(bytes: &Vec<u8>) -> (r: String)
    ensures
        r@ == con_reemplazos(bytes@),
        texto_de_bytes(bytes@) is Some ==> texto_de_bytes(bytes@) == Some(r@),
{
    String::from_utf8_lossy(bytes).into_owned()
}

/// El texto con que se muestran unos bytes: el que codifican o, si no son UTF-8, el
/// que queda al reemplazar lo que no lo es.
pub open spec fn mostrado(bytes: Seq<u8>) -> Seq<char> {
    match texto_de_bytes(bytes) {
        Some(t) => t,
        None => con_reemplazos(bytes),
    }
}

/// El texto con que se muestran unos bytes.
pub fn mostrar(bytes: &Vec<u8>) -> (r: String)
    ensures
        r@ == mostrado(bytes@),
{
    reemplazando(bytes)
}

/// ¿Codifican los bytes ese texto?
pub open spec fn es_nombre(bytes: Seq<u8>, texto: Seq<char>) -> bool {
    texto_de_bytes(bytes) == Some(texto)
}

/// ¿Codifican los bytes ese texto?
pub fn se_llama(bytes: &Vec<u8>, texto: &str) -> (r: bool)
    ensures
        r == es_nombre(bytes@, texto@),
{
    match desde_utf8(bytes) {
        Some(s) => iguales(s, texto),
        None => false,
    }
}

/// Los caracteres de un texto, en orden.
pub fn caracteres(s: &str) -> (r: Vec<char>)
    ensures
        r@ == s@,
{
    let mut v: Vec<char> = Vec::new();
    for c in it: s.chars()
        invariant
            v@ == it.seq().take(it.index()),
            it.seq() == s@,
    {
        v.push(c);
    }
    v
}

/// ¿Son el mismo texto?
pub fn iguales(a: &str, b: &str) -> (r: bool)
    ensures
        r == (a@ == b@),
{
    a.to_owned() == b.to_owned()
}

/// Posición de la última aparición de un carácter.
pub open spec fn ultima_posicion(s: Seq<char>, c: char) -> Option<int>
    decreases s.len(),
{
    if s.len() == 0 {
        None
    } else if s.last() == c {
        Some(s.len() - 1)
    } else {
        ultima_posicion(s.drop_last(), c)
    }
}

/// Posición de la primera aparición de un carácter.
pub open spec fn primera_posicion(s: Seq<char>, c: char) -> Option<int>
    decreases s.len(),
{
    if s.len() == 0 {
        None
    } else if s.first() == c {
        Some(0)
    } else {
        match primera_posicion(s.drop_first(), c) {
            Some(i) => Some(i + 1),
            None => None,
        }
    }
}

/// Lo que hay a cada lado de la última aparición de un carácter.
pub open spec fn partir_por_ultimo(s: Seq<char>, c: char) -> Option<(Seq<char>, Seq<char>)> {
    match ultima_posicion(s, c) {
        Some(i) => Some((s.take(i), s.skip(i + 1))),
        None => None,
    }
}

/// Lo que hay a cada lado de la primera aparición de un carácter.
pub open spec fn partir_por_primero(s: Seq<char>, c: char) -> Option<(Seq<char>, Seq<char>)> {
    match primera_posicion(s, c) {
        Some(i) => Some((s.take(i), s.skip(i + 1))),
        None => None,
    }
}

/// La última posición es la del carácter, y después no vuelve a aparecer.
pub proof fn lemma_ultima_posicion(s: Seq<char>, c: char)
    ensures
        match ultima_posicion(s, c) {
            Some(i) => 0 <= i < s.len() && s[i] == c && forall|j: int| i < j < s.len() ==> s[j] != c,
            None => !s.contains(c),
        },
    decreases s.len(),
{
    if s.len() > 0 && s.last() != c {
        lemma_ultima_posicion(s.drop_last(), c);
        match ultima_posicion(s, c) {
            Some(i) => {
                assert forall|j: int| i < j < s.len() implies s[j] != c by {
                    if j < s.len() - 1 {
                        assert(s.drop_last()[j] == s[j]);
                    }
                }
            },
            None => {
                if s.contains(c) {
                    let k = choose|k: int| 0 <= k < s.len() && s[k] == c;
                    assert(s.drop_last()[k] == c);
                }
            },
        }
    }
}

/// La primera posición es la del carácter, y antes no aparece.
pub proof fn lemma_primera_posicion(s: Seq<char>, c: char)
    ensures
        match primera_posicion(s, c) {
            Some(i) => 0 <= i < s.len() && s[i] == c && forall|j: int| 0 <= j < i ==> s[j] != c,
            None => !s.contains(c),
        },
    decreases s.len(),
{
    if s.len() > 0 && s.first() != c {
        lemma_primera_posicion(s.drop_first(), c);
        match primera_posicion(s.drop_first(), c) {
            Some(i) => {
                assert forall|j: int| 0 <= j < i + 1 implies s[j] != c by {
                    if j > 0 {
                        assert(s.drop_first()[j - 1] == s[j]);
                    }
                }
            },
            None => {
                if s.contains(c) {
                    let k = choose|k: int| 0 <= k < s.len() && s[k] == c;
                    assert(s.drop_first()[k - 1] == c);
                }
            },
        }
    }
}

/// Parte un texto por la última aparición de un carácter.
pub fn partir_ultimo(s: &str, c: char) -> (r: Option<(String, String)>)
    ensures
        match r {
            Some((a, b)) => partir_por_ultimo(s@, c) == Some((a@, b@)),
            None => partir_por_ultimo(s@, c) is None,
        },
{
    let v = caracteres(s);
    let mut i: usize = v.len();
    while i > 0
        invariant
            i <= v@.len(),
            v@ == s@,
            forall|j: int| i <= j < v@.len() ==> v@[j] != c,
        decreases i,
    {
        if v[i - 1] == c {
            proof {
                lemma_ultima_posicion(s@, c);
            }
            let a = s.substring_char(0, i - 1);
            let b = s.substring_char(i, v.len());
            assert(b@ == s@.skip(i as int));
            return Some((a.to_owned(), b.to_owned()));
        }
        i -= 1;
    }
    proof {
        lemma_ultima_posicion(s@, c);
    }
    None
}

/// Parte un texto por la primera aparición de un carácter.
pub fn partir_primero(s: &str, c: char) -> (r: Option<(String, String)>)
    ensures
        match r {
            Some((a, b)) => partir_por_primero(s@, c) == Some((a@, b@)),
            None => partir_por_primero(s@, c) is None,
        },
{
    let v = caracteres(s);
    for i in 0..v.len()
        invariant
            v@ == s@,
            forall|j: int| 0 <= j < i ==> v@[j] != c,
    {
        if v[i] == c {
            proof {
                lemma_primera_posicion(s@, c);
            }
            let a = s.substring_char(0, i);
            let b = s.substring_char(i + 1, v.len());
            assert(b@ == s@.skip(i + 1));
            return Some((a.to_owned(), b.to_owned()));
        }
    }
    proof {
        lemma_primera_posicion(s@, c);
    }
    None
}

/// ¿Es un dígito hexadecimal, en mayúscula o minúscula?
pub open spec fn es_hex(c: char) -> bool {
    ('0' <= c && c <= '9') || ('a' <= c && c <= 'f') || ('A' <= c && c <= 'F')
}

/// ¿Son todos los caracteres dígitos hexadecimales?
pub open spec fn todo_hex(s: Seq<char>) -> bool {
    forall|i: int| 0 <= i < s.len() ==> es_hex(#[trigger] s[i])
}

/// ¿Son todos los caracteres dígitos hexadecimales?
pub fn solo_hex(v: &Vec<char>) -> (r: bool)
    ensures
        r == todo_hex(v@),
{
    for i in 0..v.len()
        invariant
            forall|j: int| 0 <= j < i ==> es_hex(#[trigger] v@[j]),
    {
        let c = v[i];
        if !(('0' <= c && c <= '9') || ('a' <= c && c <= 'f') || ('A' <= c && c <= 'F')) {
            assert(!es_hex(v@[i as int]));
            return false;
        }
    }
    true
}

/// ¿Empieza el texto por el prefijo?
pub open spec fn empieza_por(s: Seq<char>, prefijo: Seq<char>) -> bool {
    prefijo.len() <= s.len() && s.take(prefijo.len() as int) == prefijo
}

/// ¿Termina el texto en el sufijo?
pub open spec fn termina_en(s: Seq<char>, sufijo: Seq<char>) -> bool {
    sufijo.len() <= s.len() && s.skip(s.len() - sufijo.len()) == sufijo
}

/// ¿Empieza el texto por el prefijo?
pub fn tiene_prefijo(s: &str, prefijo: &str) -> (r: bool)
    ensures
        r == empieza_por(s@, prefijo@),
{
    let n: usize = prefijo.unicode_len();
    n <= s.unicode_len() && iguales(s.substring_char(0, n), prefijo)
}

/// ¿Termina el texto en el sufijo?
pub fn tiene_sufijo(s: &str, sufijo: &str) -> (r: bool)
    ensures
        r == termina_en(s@, sufijo@),
{
    let n: usize = sufijo.unicode_len();
    let total: usize = s.unicode_len();
    if n > total {
        return false;
    }
    let cola = s.substring_char(total - n, total);
    assert(cola@ == s@.skip(s@.len() - sufijo@.len()));
    iguales(cola, sufijo)
}

/// ¿Es un dígito decimal?
pub open spec fn es_digito(c: char) -> bool {
    '0' <= c && c <= '9'
}

/// El valor de un dígito decimal.
pub open spec fn valor_de_digito(c: char) -> nat {
    (c as u32 - 48) as nat
}

/// El dígito decimal de valor `d`.
pub open spec fn digito(d: nat) -> char {
    (48 + d) as u8 as char
}

/// El número que escriben unos dígitos decimales.
pub open spec fn valor_decimal(s: Seq<char>) -> nat
    decreases s.len(),
{
    if s.len() == 0 {
        0
    } else {
        valor_decimal(s.drop_last()) * 10 + valor_de_digito(s.last())
    }
}

/// Lo que sigue al `+` opcional con que puede empezar un número.
pub open spec fn sin_signo(s: Seq<char>) -> Seq<char> {
    if s.len() > 0 && s[0] == '+' {
        s.skip(1)
    } else {
        s
    }
}

/// ¿Son todos los caracteres dígitos decimales?
pub open spec fn todo_digitos(s: Seq<char>) -> bool {
    forall|i: int| 0 <= i < s.len() ==> es_digito(#[trigger] s[i])
}

/// El número natural que escribe un texto: dígitos decimales, uno o más, tras un
/// `+` opcional.
pub open spec fn natural(s: Seq<char>) -> Option<nat> {
    if sin_signo(s).len() > 0 && todo_digitos(sin_signo(s)) {
        Some(valor_decimal(sin_signo(s)))
    } else {
        None
    }
}

/// El número natural que escribe un texto, si no pasa del tope.
pub open spec fn natural_hasta(s: Seq<char>, tope: nat) -> Option<nat> {
    match natural(s) {
        Some(n) => if n <= tope {
            Some(n)
        } else {
            None
        },
        None => None,
    }
}

/// Los dígitos decimales de un número, sin ceros a la izquierda.
pub open spec fn decimal(n: nat) -> Seq<char>
    decreases n,
{
    if n < 10 {
        seq![digito(n)]
    } else {
        decimal(n / 10).push(digito(n % 10))
    }
}

/// Agregar dígitos no achica el número.
proof fn lemma_valor_crece(s: Seq<char>, i: int)
    requires
        0 <= i <= s.len(),
    ensures
        valor_decimal(s.take(i)) <= valor_decimal(s),
    decreases s.len() - i,
{
    if i == s.len() {
        assert(s.take(i) == s);
    } else {
        assert(s.take(i + 1).drop_last() == s.take(i));
        lemma_valor_crece(s, i + 1);
    }
}

/// Lee un número natural que no pase del tope.
pub fn leer_natural(s: &str, tope: u64) -> (r: Option<u64>)
    ensures
        match r {
            Some(n) => natural_hasta(s@, tope as nat) == Some(n as nat),
            None => natural_hasta(s@, tope as nat) is None,
        },
{
    let v = caracteres(s);
    let inicio: usize = if v.len() > 0 && v[0] == '+' {
        1
    } else {
        0
    };
    let ghost digitos = v@.skip(inicio as int);
    assert(v@.skip(0) == v@);
    if inicio == v.len() {
        return None;
    }
    let mut n: u64 = 0;
    let mut i: usize = inicio;
    while i < v.len()
        invariant
            inicio <= i <= v@.len(),
            digitos == v@.skip(inicio as int),
            digitos == sin_signo(s@),
            forall|j: int| 0 <= j < i - inicio ==> es_digito(#[trigger] digitos[j]),
            n == valor_decimal(digitos.take(i - inicio)),
            n <= tope,
            v@ == s@,
        decreases v.len() - i,
    {
        let c = v[i];
        assert(digitos[i - inicio] == c);
        if !('0' <= c && c <= '9') {
            assert(!es_digito(digitos[i - inicio]));
            return None;
        }
        let siguiente: u128 = n as u128 * 10 + (c as u32 - 48) as u128;
        assert(digitos.take(i + 1 - inicio).drop_last() == digitos.take(i - inicio));
        assert(siguiente == valor_decimal(digitos.take(i + 1 - inicio)));
        if siguiente > tope as u128 {
            proof {
                lemma_valor_crece(digitos, i + 1 - inicio);
            }
            return None;
        }
        n = siguiente as u64;
        i += 1;
    }
    assert(digitos.take(digitos.len() as int) == digitos);
    Some(n)
}

/// Escribe un número en decimal.
pub fn escribir_decimal(n: u64) -> (r: String)
    ensures
        r@ == decimal(n as nat),
    decreases n,
{
    if n < 10 {
        let mut s = String::new();
        s.push((48 + n as u8) as char);
        assert(s@ == seq![digito(n as nat)]);
        s
    } else {
        let mut s = escribir_decimal(n / 10);
        s.push((48 + (n % 10) as u8) as char);
        s
    }
}

/// Los dígitos decimales de un número son dígitos, y su valor es el número.
proof fn lemma_decimal(n: nat)
    ensures
        decimal(n).len() > 0,
        todo_digitos(decimal(n)),
        valor_decimal(decimal(n)) == n,
    decreases n,
{
    if n < 10 {
        assert(decimal(n).drop_last() == Seq::<char>::empty());
        assert(valor_decimal(decimal(n).drop_last()) == 0);
    } else {
        lemma_decimal(n / 10);
        assert(decimal(n).drop_last() == decimal(n / 10));
    }
}

/// Leer lo que se escribió en decimal devuelve el mismo número.
pub proof fn ley_decimal_ida_y_vuelta(n: nat, tope: nat)
    requires
        n <= tope,
    ensures
        natural_hasta(decimal(n), tope) == Some(n),
{
    lemma_decimal(n);
    assert(es_digito(decimal(n)[0]));
}

/// ¿Es un espacio en blanco de Unicode?
pub open spec fn es_blanco(c: char) -> bool {
    let u = c as u32;
    ||| 0x9 <= u <= 0xd
    ||| u == 0x20
    ||| u == 0x85
    ||| u == 0xa0
    ||| u == 0x1680
    ||| 0x2000 <= u <= 0x200a
    ||| u == 0x2028
    ||| u == 0x2029
    ||| u == 0x202f
    ||| u == 0x205f
    ||| u == 0x3000
}

/// El texto sin los blancos del principio.
pub open spec fn sin_blancos_delante(s: Seq<char>) -> Seq<char>
    decreases s.len(),
{
    if s.len() > 0 && es_blanco(s.first()) {
        sin_blancos_delante(s.drop_first())
    } else {
        s
    }
}

/// El texto sin los blancos del final.
pub open spec fn sin_blancos_detras(s: Seq<char>) -> Seq<char>
    decreases s.len(),
{
    if s.len() > 0 && es_blanco(s.last()) {
        sin_blancos_detras(s.drop_last())
    } else {
        s
    }
}

/// El texto sin los blancos de los extremos.
pub open spec fn recortado(s: Seq<char>) -> Seq<char> {
    sin_blancos_detras(sin_blancos_delante(s))
}

fn blanco(c: char) -> (r: bool)
    ensures
        r == es_blanco(c),
{
    let u: u32 = c as u32;
    (0x9 <= u && u <= 0xd) || u == 0x20 || u == 0x85 || u == 0xa0 || u == 0x1680 || (0x2000 <= u && u
        <= 0x200a) || u == 0x2028 || u == 0x2029 || u == 0x202f || u == 0x205f || u == 0x3000
}

/// Quita los blancos de los extremos.
pub fn recortar(s: &str) -> (r: String)
    ensures
        r@ == recortado(s@),
{
    let v = caracteres(s);
    let mut i: usize = 0;
    assert(v@.skip(0) == v@);
    while i < v.len() && blanco(v[i])
        invariant
            i <= v@.len(),
            v@ == s@,
            sin_blancos_delante(v@) == sin_blancos_delante(v@.skip(i as int)),
        decreases v.len() - i,
    {
        assert(v@.skip(i as int).drop_first() == v@.skip(i + 1));
        i += 1;
    }
    let ghost resto = v@.skip(i as int);
    assert(sin_blancos_delante(v@) == resto);
    let mut j: usize = v.len();
    assert(v@.subrange(i as int, j as int) == resto);
    while i < j && blanco(v[j - 1])
        invariant
            i <= j <= v@.len(),
            v@ == s@,
            sin_blancos_detras(resto) == sin_blancos_detras(v@.subrange(i as int, j as int)),
        decreases j,
    {
        assert(v@.subrange(i as int, j as int).drop_last() == v@.subrange(i as int, j - 1));
        j -= 1;
    }
    s.substring_char(i, j).to_owned()
}

/// `n` copias de un carácter.
pub open spec fn repetido(c: char, n: nat) -> Seq<char> {
    Seq::new(n, |i: int| c)
}

/// El texto con relleno por la izquierda hasta el ancho pedido.
pub open spec fn a_la_derecha(s: Seq<char>, ancho: nat, relleno: char) -> Seq<char> {
    if s.len() >= ancho {
        s
    } else {
        repetido(relleno, (ancho - s.len()) as nat) + s
    }
}

/// El texto con relleno por la derecha hasta el ancho pedido.
pub open spec fn a_la_izquierda(s: Seq<char>, ancho: nat, relleno: char) -> Seq<char> {
    if s.len() >= ancho {
        s
    } else {
        s + repetido(relleno, (ancho - s.len()) as nat)
    }
}

/// Rellena por la izquierda hasta el ancho pedido.
pub fn alinear_derecha(s: &str, ancho: usize, relleno: char) -> (r: String)
    ensures
        r@ == a_la_derecha(s@, ancho as nat, relleno),
{
    let n: usize = s.unicode_len();
    let mut r = String::new();
    if n < ancho {
        for i in 0..(ancho - n)
            invariant
                r@ == repetido(relleno, i as nat),
        {
            r.push(relleno);
            assert(repetido(relleno, i as nat).push(relleno) == repetido(relleno, (i + 1) as nat));
        }
    }
    r.append(s);
    assert(n >= ancho ==> r@ == s@);
    r
}

/// Rellena por la derecha hasta el ancho pedido.
pub fn alinear_izquierda(s: &str, ancho: usize, relleno: char) -> (r: String)
    ensures
        r@ == a_la_izquierda(s@, ancho as nat, relleno),
{
    let n: usize = s.unicode_len();
    let mut r: String = s.to_owned();
    if n < ancho {
        assert(s@ + repetido(relleno, 0) == s@);
        for i in 0..(ancho - n)
            invariant
                r@ == s@ + repetido(relleno, i as nat),
        {
            r.push(relleno);
            assert((s@ + repetido(relleno, i as nat)).push(relleno) == s@ + repetido(
                relleno,
                (i + 1) as nat,
            ));
        }
    }
    r
}

/// Lo que queda de un carácter al cambiar `de` por `a`.
pub open spec fn sustituto(c: char, de: char, a: char) -> char {
    if c == de {
        a
    } else {
        c
    }
}

/// El texto con un carácter cambiado por otro.
pub open spec fn cambiado(s: Seq<char>, de: char, a: char) -> Seq<char> {
    s.map_values(|c: char| sustituto(c, de, a))
}

/// Cambia un carácter por otro en todo el texto.
pub fn cambiar(s: &str, de: char, a: char) -> (r: String)
    ensures
        r@ == cambiado(s@, de, a),
{
    let v = caracteres(s);
    let mut r = String::new();
    for i in 0..v.len()
        invariant
            v@ == s@,
            r@ == cambiado(s@, de, a).take(i as int),
    {
        let c = v[i];
        r.push(
            if c == de {
                a
            } else {
                c
            },
        );
        assert(r@ == cambiado(s@, de, a).take(i + 1));
    }
    assert(cambiado(s@, de, a).take(v@.len() as int) == cambiado(s@, de, a));
    r
}

/// Los textos, uno tras otro, con un separador en medio.
pub open spec fn unidos(partes: Seq<Seq<char>>, separador: Seq<char>) -> Seq<char>
    decreases partes.len(),
{
    if partes.len() == 0 {
        Seq::empty()
    } else if partes.len() == 1 {
        partes[0]
    } else {
        unidos(partes.drop_last(), separador) + separador + partes.last()
    }
}

/// Las vistas de unos textos.
pub open spec fn vistas(textos: Seq<String>) -> Seq<Seq<char>> {
    textos.map_values(|t: String| t@)
}

/// Une textos con un separador en medio.
pub fn unir(partes: &Vec<String>, separador: &str) -> (r: String)
    ensures
        r@ == unidos(vistas(partes@), separador@),
{
    let mut r = String::new();
    for i in 0..partes.len()
        invariant
            r@ == unidos(vistas(partes@).take(i as int), separador@),
    {
        if i > 0 {
            r.append(separador);
        }
        r.append(partes[i].as_str());
        assert(vistas(partes@).take(i + 1).drop_last() == vistas(partes@).take(i as int));
        assert(i == 0 ==> r@ == partes@[0]@);
    }
    assert(vistas(partes@).take(partes@.len() as int) == vistas(partes@));
    r
}

/// Unos bytes y un texto se corresponden si los bytes son la codificación UTF-8 del
/// texto, y de ninguna otra manera; un nombre de texto se muestra tal cual.
pub proof fn ley_los_nombres_son_utf8(bytes: Seq<u8>, texto: Seq<char>)
    ensures
        texto_de_bytes(bytes) == Some(texto) <==> bytes == encode_utf8(texto),
        es_nombre(bytes, texto) <==> bytes == encode_utf8(texto),
        mostrado(encode_utf8(texto)) == texto,
{
    encode_utf8_valid_utf8(texto);
    encode_utf8_decode_utf8(texto);
    if valid_utf8(bytes) {
        decode_utf8_encode_utf8(bytes);
    }
}

/// Partir deshace lo que se unió con el carácter: por el último si no vuelve a
/// aparecer detrás, por el primero si no aparecía delante. Sin él no se parte.
pub proof fn ley_partir_deshace_unir(a: Seq<char>, b: Seq<char>, c: char)
    ensures
        !b.contains(c) ==> partir_por_ultimo(a.push(c) + b, c) == Some((a, b)),
        !a.contains(c) ==> partir_por_primero(a.push(c) + b, c) == Some((a, b)),
        !a.contains(c) ==> partir_por_ultimo(a, c) is None && partir_por_primero(a, c) is None,
{
    let s = a.push(c) + b;
    let n = a.len() as int;
    assert(s[n] == c);
    assert(s.contains(c));
    assert(s.take(n) =~= a);
    assert(s.skip(n + 1) =~= b);
    lemma_ultima_posicion(s, c);
    lemma_primera_posicion(s, c);
    lemma_ultima_posicion(a, c);
    lemma_primera_posicion(a, c);
    if !b.contains(c) {
        let i = ultima_posicion(s, c)->0;
        if i > n {
            assert(s[i] == b[i - n - 1]);
            assert(b.contains(b[i - n - 1]));
        }
        assert(i == n);
    }
    if !a.contains(c) {
        let i = primera_posicion(s, c)->0;
        if i < n {
            assert(s[i] == a[i]);
            assert(a.contains(a[i]));
        }
        assert(i == n);
        if ultima_posicion(a, c) is Some {
            assert(a.contains(a[ultima_posicion(a, c)->0]));
        }
        if primera_posicion(a, c) is Some {
            assert(a.contains(a[primera_posicion(a, c)->0]));
        }
    }
}

/// Los dígitos hexadecimales son las diez cifras y las seis primeras letras, en
/// mayúscula o minúscula.
pub proof fn ley_que_es_hexadecimal(s: Seq<char>)
    ensures
        todo_hex(s) <==> forall|i: int|
            0 <= i < s.len() ==> {
                let c = #[trigger] s[i];
                '0' <= c && c <= '9' || 'a' <= c && c <= 'f' || 'A' <= c && c <= 'F'
            },
{
    if todo_hex(s) {
        assert forall|i: int| 0 <= i < s.len() implies {
            let c = #[trigger] s[i];
            '0' <= c && c <= '9' || 'a' <= c && c <= 'f' || 'A' <= c && c <= 'F'
        } by {
            assert(es_hex(s[i]));
        }
    }
}

/// Un texto empieza por otro, o termina en otro, justo cuando es ese otro con algo
/// detrás, o con algo delante.
pub proof fn ley_empezar_y_terminar(a: Seq<char>, b: Seq<char>)
    ensures
        empieza_por(a + b, a),
        termina_en(a + b, b),
        empieza_por(a, b) ==> exists|resto: Seq<char>| a == #[trigger] (b + resto),
        termina_en(a, b) ==> exists|resto: Seq<char>| a == #[trigger] (resto + b),
{
    assert((a + b).take(a.len() as int) =~= a);
    assert((a + b).skip(a.len() as int) =~= b);
    if empieza_por(a, b) {
        assert(a =~= b + a.skip(b.len() as int));
    }
    if termina_en(a, b) {
        assert(a =~= a.take(a.len() - b.len()) + b);
    }
}

/// Cómo se lee un número: una cifra vale lo que vale, agregar una cifra multiplica
/// por diez y la suma, y un `+` delante no cambia nada.
pub proof fn ley_como_se_lee_un_numero(s: Seq<char>, d: nat)
    requires
        d < 10,
    ensures
        natural(seq!["0123456789"@[d as int]]) == Some(d),
        natural(s) is Some ==> natural(s.push("0123456789"@[d as int])) == Some(
            10 * natural(s)->0 + d,
        ),
        natural(s) is Some && s[0] != '+' ==> natural(seq!['+'] + s) == natural(s),
{
    reveal_strlit("0123456789");
    let c = "0123456789"@[d as int];
    assert(es_digito(c) && valor_de_digito(c) == d && c != '+') by {
        if d == 0 {
        } else if d == 1 {
        } else if d == 2 {
        } else if d == 3 {
        } else if d == 4 {
        } else if d == 5 {
        } else if d == 6 {
        } else if d == 7 {
        } else if d == 8 {
        } else {
            assert(d == 9);
        }
    }
    let una = seq![c];
    assert(una.drop_last() =~= Seq::<char>::empty());
    assert(valor_decimal(una.drop_last()) == 0);
    if natural(s) is Some {
        let digitos = sin_signo(s);
        assert(sin_signo(s.push(c)) =~= digitos.push(c));
        assert(digitos.push(c).drop_last() =~= digitos);
        assert forall|i: int| 0 <= i < digitos.push(c).len() implies es_digito(
            #[trigger] digitos.push(c)[i],
        ) by {
            if i < digitos.len() {
                assert(es_digito(digitos[i]));
            }
        }
        assert((seq!['+'] + s).skip(1) =~= s);
    }
}

/// Qué no es un número: sólo lo son una o más cifras, tras un `+` opcional; y el tope
/// descarta los que lo pasan, y sólo esos.
pub proof fn ley_que_es_un_numero(s: Seq<char>, tope: nat)
    ensures
        natural(s) is Some <==> {
            &&& s.len() > 0
            &&& s[0] == '+' ==> s.len() > 1
            &&& forall|i: int|
                0 <= i < s.len() && !(i == 0 && s[0] == '+') ==> '0' <= #[trigger] s[i] && s[i] <= '9'
        },
        natural_hasta(s, tope) is Some <==> natural(s) is Some && natural(s)->0 <= tope,
        natural_hasta(s, tope) is Some ==> natural_hasta(s, tope) == natural(s),
{
    let d = sin_signo(s);
    if natural(s) is Some {
        assert forall|i: int| 0 <= i < s.len() && !(i == 0 && s[0] == '+') implies '0'
            <= #[trigger] s[i] && s[i] <= '9' by {
            if s[0] == '+' {
                assert(es_digito(d[i - 1]));
            } else {
                assert(es_digito(d[i]));
            }
        }
    }
    if s.len() > 0 && (s[0] == '+' ==> s.len() > 1) && (forall|i: int|
        0 <= i < s.len() && !(i == 0 && s[0] == '+') ==> '0' <= #[trigger] s[i] && s[i] <= '9') {
        assert forall|i: int| 0 <= i < d.len() implies es_digito(#[trigger] d[i]) by {
            if s[0] == '+' {
                assert(d[i] == s[i + 1]);
            }
        }
    }
}

/// Un número se escribe sólo con cifras, y sin ceros a la izquierda.
pub proof fn ley_como_se_escribe_un_numero(n: nat)
    ensures
        decimal(n).len() > 0,
        forall|i: int| 0 <= i < decimal(n).len() ==> '0' <= #[trigger] decimal(n)[i] && decimal(n)[i]
            <= '9',
        decimal(n).len() > 1 ==> decimal(n)[0] != '0',
        natural(decimal(n)) == Some(n),
    decreases n,
{
    lemma_decimal(n);
    assert forall|i: int| 0 <= i < decimal(n).len() implies '0' <= #[trigger] decimal(n)[i]
        && decimal(n)[i] <= '9' by {
        assert(es_digito(decimal(n)[i]));
    }
    ley_decimal_ida_y_vuelta(n, n);
    if n >= 10 {
        ley_como_se_escribe_un_numero(n / 10);
        assert(decimal(n)[0] == decimal(n / 10)[0]);
        if n / 10 < 10 {
            assert(decimal(n / 10) == seq![digito(n / 10)]);
            assert(digito(n / 10) as u32 == 48 + n / 10);
        } else {
            assert(decimal(n / 10 / 10).len() > 0) by {
                lemma_decimal(n / 10 / 10);
            }
        }
    }
}

/// Recortar quita los blancos de los extremos, todos y nada más.
pub proof fn ley_recortar_quita_los_blancos(s: Seq<char>, delante: Seq<char>, detras: Seq<char>)
    requires
        forall|i: int| 0 <= i < delante.len() ==> es_blanco(#[trigger] delante[i]),
        forall|i: int| 0 <= i < detras.len() ==> es_blanco(#[trigger] detras[i]),
        s.len() > 0 ==> !es_blanco(s.first()) && !es_blanco(s.last()),
    ensures
        recortado(delante + s + detras) == s,
    decreases delante.len() + detras.len(),
{
    let t = delante + s + detras;
    if delante.len() > 0 {
        let resto = delante.drop_first();
        assert forall|i: int| 0 <= i < resto.len() implies es_blanco(#[trigger] resto[i]) by {
            assert(resto[i] == delante[i + 1]);
        }
        ley_recortar_quita_los_blancos(s, resto, detras);
        assert(t.first() == delante[0]);
        assert(t.drop_first() =~= resto + s + detras);
    } else if s.len() == 0 {
        assert(t =~= detras);
        if detras.len() > 0 {
            let resto = detras.drop_first();
            assert forall|i: int| 0 <= i < resto.len() implies es_blanco(#[trigger] resto[i]) by {
                assert(resto[i] == detras[i + 1]);
            }
            ley_recortar_quita_los_blancos(s, delante, resto);
            assert(t.first() == detras[0]);
            assert(t.drop_first() =~= delante + s + resto);
        } else {
            assert(t =~= s);
        }
    } else {
        assert(t.first() == s.first());
        if detras.len() > 0 {
            let resto = detras.drop_last();
            assert forall|i: int| 0 <= i < resto.len() implies es_blanco(#[trigger] resto[i]) by {
                assert(resto[i] == detras[i]);
            }
            ley_recortar_quita_los_blancos(s, delante, resto);
            assert((delante + s + resto).first() == s.first());
            assert(t.last() == detras.last());
            assert(t.drop_last() =~= delante + s + resto);
        } else {
            assert(t =~= s);
        }
    }
}

/// Los blancos son los de Unicode: los de ASCII y los demás espacios y saltos.
pub proof fn ley_que_es_un_blanco(c: char)
    ensures
        (c as u32) < 0x80 ==> (es_blanco(c) <==> (c == ' ' || 9 <= c as u32 <= 13)),
        0x80 <= c as u32 <= 0x2000 ==> (es_blanco(c) <==> (c as u32 == 0x85 || c as u32 == 0xa0
            || c as u32 == 0x1680 || c as u32 == 0x2000)),
        c as u32 > 0x2000 ==> (es_blanco(c) <==> (c as u32 <= 0x200a || c as u32 == 0x2028
            || c as u32 == 0x2029 || c as u32 == 0x202f || c as u32 == 0x205f || c as u32
            == 0x3000)),
{
}

/// Alinear deja el texto entero en su extremo y pone delante, o detrás, sólo relleno:
/// el justo para llegar al ancho, y ninguno si ya no cabía.
pub proof fn ley_alinear_solo_pone_relleno(s: Seq<char>, ancho: nat, relleno: char)
    ensures
        ({
            let falta = if s.len() < ancho {
                ancho - s.len()
            } else {
                0
            };
            let d = a_la_derecha(s, ancho, relleno);
            let i = a_la_izquierda(s, ancho, relleno);
            &&& d.len() == s.len() + falta
            &&& d.skip(falta) == s
            &&& forall|k: int| 0 <= k < falta ==> #[trigger] d[k] == relleno
            &&& i.len() == s.len() + falta
            &&& i.take(s.len() as int) == s
            &&& forall|k: int| s.len() <= k < i.len() ==> #[trigger] i[k] == relleno
        }),
{
    let falta = if s.len() < ancho {
        ancho - s.len()
    } else {
        0
    };
    assert(a_la_derecha(s, ancho, relleno).skip(falta) =~= s);
    assert(a_la_izquierda(s, ancho, relleno).take(s.len() as int) =~= s);
}

/// Repetir da tantas copias como se piden, todas iguales.
pub proof fn ley_repetir(c: char, n: nat)
    ensures
        repetido(c, n).len() == n,
        forall|k: int| 0 <= k < n ==> #[trigger] repetido(c, n)[k] == c,
{
}

/// Cambiar un carácter por otro no mueve nada, y no toca ningún otro carácter.
pub proof fn ley_cambiar_solo_cambia_uno(s: Seq<char>, de: char, a: char, i: int)
    ensures
        cambiado(s, de, a).len() == s.len(),
        0 <= i < s.len() && s[i] == de ==> cambiado(s, de, a)[i] == a,
        0 <= i < s.len() && s[i] != de ==> cambiado(s, de, a)[i] == s[i],
{
}

/// Unir pone los textos uno tras otro, con el separador sólo en medio.
pub proof fn ley_unir_pone_separadores_en_medio(
    partes: Seq<Seq<char>>,
    ultima: Seq<char>,
    separador: Seq<char>,
)
    ensures
        unidos(Seq::empty(), separador) == Seq::<char>::empty(),
        unidos(seq![ultima], separador) == ultima,
        partes.len() > 0 ==> unidos(partes.push(ultima), separador) == unidos(partes, separador)
            + separador + ultima,
{
    assert(partes.push(ultima).drop_last() =~= partes);
}

/// Lo que es UTF-8 se muestra tal cual, y lo que no, reemplazado.
pub proof fn ley_como_se_muestran_los_bytes(bytes: Seq<u8>, texto: Seq<char>)
    ensures
        mostrado(encode_utf8(texto)) == texto,
        !valid_utf8(bytes) ==> mostrado(bytes) == con_reemplazos(bytes),
{
    encode_utf8_valid_utf8(texto);
    encode_utf8_decode_utf8(texto);
}

/// Unos textos se ven uno a uno, en su orden.
pub proof fn ley_los_textos_se_ven_como_son(textos: Seq<String>, i: int)
    ensures
        vistas(textos).len() == textos.len(),
        0 <= i < textos.len() ==> vistas(textos)[i] == textos[i]@,
{
}

} // verus!
