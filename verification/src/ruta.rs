//! Rutas absolutas, como la lista de los nombres que las componen.

use crate::texto;
use vstd::prelude::*;
use vstd::string::*;
use vstd::utf8::*;

verus! {

/// Una ruta absoluta y sin atajos: los nombres que hay que seguir desde la raíz.
///
/// Cada nombre son los bytes que da el sistema de archivos.
#[derive(Debug)]
pub struct Ruta {
    pub partes: Vec<Vec<u8>>,
}

impl View for Ruta {
    type V = Seq<Seq<u8>>;

    open spec fn view(&self) -> Seq<Seq<u8>> {
        nombres(self.partes@)
    }
}

/// Las vistas de unos nombres.
pub open spec fn nombres(partes: Seq<Vec<u8>>) -> Seq<Seq<u8>> {
    partes.map_values(|parte: Vec<u8>| parte@)
}

/// Copia unos bytes.
pub fn copiar_bytes(bytes: &Vec<u8>) -> (r: Vec<u8>)
    ensures
        r@ == bytes@,
{
    let r = bytes.clone();
    assert(r@ =~= bytes@);
    r
}

/// ¿Es `base` el comienzo de `ruta`?
pub open spec fn cuelga_de(ruta: Seq<Seq<u8>>, base: Seq<Seq<u8>>) -> bool {
    base.len() <= ruta.len() && ruta.take(base.len() as int) == base
}

/// Los nombres de una ruta, separados por barras.
pub open spec fn con_barras(partes: Seq<Seq<u8>>) -> Seq<u8>
    decreases partes.len(),
{
    if partes.len() == 0 {
        Seq::empty()
    } else if partes.len() == 1 {
        partes[0]
    } else {
        con_barras(partes.drop_last()) + seq![47u8] + partes.last()
    }
}

impl Clone for Ruta {
    fn clone(&self) -> (r: Ruta)
        ensures
            r@ == self@,
    {
        let mut partes: Vec<Vec<u8>> = Vec::new();
        for i in 0..self.partes.len()
            invariant
                nombres(partes@) == self@.take(i as int),
        {
            let ghost antes = partes@;
            partes.push(copiar_bytes(&self.partes[i]));
            assert(nombres(partes@) =~= nombres(antes).push(self@[i as int]));
            assert(nombres(partes@) =~= self@.take(i + 1));
        }
        assert(self@.take(self@.len() as int) =~= self@);
        Ruta { partes }
    }
}

impl Ruta {
    /// La ruta del elemento `nombre` de este directorio.
    pub fn hijo(&self, nombre: &Vec<u8>) -> (r: Ruta)
        ensures
            r@ == self@.push(nombre@),
    {
        let mut r = self.clone();
        r.partes.push(copiar_bytes(nombre));
        assert(r@ =~= self@.push(nombre@));
        r
    }

    /// La ruta del elemento `nombre` de este directorio, con el nombre en texto.
    pub fn join(&self, nombre: &str) -> (r: Ruta)
        ensures
            r@ == self@.push(encode_utf8(nombre@)),
    {
        self.hijo(&nombre.as_bytes_vec())
    }

    /// Esta ruta seguida de los nombres de otra.
    pub fn extender(&self, resto: &Ruta) -> (r: Ruta)
        ensures
            r@ == self@ + resto@,
    {
        let mut r = self.clone();
        assert(self@ + resto@.take(0) =~= self@);
        for i in 0..resto.partes.len()
            invariant
                r@ == self@ + resto@.take(i as int),
        {
            let ghost antes = r@;
            r.partes.push(copiar_bytes(&resto.partes[i]));
            assert(r@ =~= antes.push(resto@[i as int]));
            assert(resto@.take(i + 1) =~= resto@.take(i as int).push(resto@[i as int]));
        }
        assert(resto@.take(resto@.len() as int) =~= resto@);
        r
    }

    /// Lo que queda de la ruta al quitar la base, si cuelga de ella.
    pub fn strip_prefix(&self, base: &Ruta) -> (r: Option<Ruta>)
        ensures
            match r {
                Some(resto) => cuelga_de(self@, base@) && resto@ == self@.skip(base@.len() as int),
                None => !cuelga_de(self@, base@),
            },
    {
        let n: usize = base.partes.len();
        if n > self.partes.len() {
            return None;
        }
        for i in 0..n
            invariant
                n == base@.len(),
                n <= self@.len(),
                self@.take(i as int) == base@.take(i as int),
        {
            assert(base@[i as int] == base.partes@[i as int]@ && self@[i as int]
                == self.partes@[i as int]@);
            if !mismos_bytes(&self.partes[i], &base.partes[i]) {
                assert(self@.take(n as int)[i as int] != base@[i as int]);
                return None;
            }
            assert(self@.take(i + 1) =~= self@.take(i as int).push(self@[i as int]));
            assert(base@.take(i + 1) =~= base@.take(i as int).push(base@[i as int]));
        }
        assert(base@.take(n as int) =~= base@);
        let mut partes: Vec<Vec<u8>> = Vec::new();
        for i in n..self.partes.len()
            invariant
                n <= self@.len(),
                nombres(partes@) == self@.subrange(n as int, i as int),
        {
            let ghost antes = partes@;
            partes.push(copiar_bytes(&self.partes[i]));
            assert(nombres(partes@) =~= nombres(antes).push(self@[i as int]));
            assert(nombres(partes@) =~= self@.subrange(n as int, i + 1));
        }
        Some(Ruta { partes })
    }

    /// La ruta del directorio que la contiene; la raíz no tiene.
    pub fn parent(&self) -> (r: Option<Ruta>)
        ensures
            match r {
                Some(padre) => self@.len() > 0 && padre@ == self@.drop_last(),
                None => self@.len() == 0,
            },
    {
        if self.partes.len() == 0 {
            return None;
        }
        let mut r = self.clone();
        let _ = r.partes.pop();
        assert(r@ =~= self@.drop_last());
        Some(r)
    }

    /// El último nombre de la ruta; la raíz no tiene.
    pub fn file_name(&self) -> (r: Option<&Vec<u8>>)
        ensures
            match r {
                Some(nombre) => self@.len() > 0 && nombre@ == self@.last(),
                None => self@.len() == 0,
            },
    {
        if self.partes.len() == 0 {
            None
        } else {
            Some(&self.partes[self.partes.len() - 1])
        }
    }

    /// Los nombres de la ruta separados por barras, sin la barra inicial.
    pub fn relativa(&self) -> (r: Vec<u8>)
        ensures
            r@ == con_barras(self@),
    {
        let mut r: Vec<u8> = Vec::new();
        for i in 0..self.partes.len()
            invariant
                r@ == con_barras(self@.take(i as int)),
        {
            if i > 0 {
                r.push(47u8);
            }
            let mut parte: Vec<u8> = copiar_bytes(&self.partes[i]);
            r.append(&mut parte);
            assert(self@.take(i + 1).drop_last() =~= self@.take(i as int));
            assert(r@ =~= con_barras(self@.take(i + 1)));
        }
        assert(self@.take(self@.len() as int) =~= self@);
        r
    }
}

/// ¿Son los mismos bytes?
pub fn mismos_bytes(a: &Vec<u8>, b: &Vec<u8>) -> (r: bool)
    ensures
        r == (a@ == b@),
{
    if a.len() != b.len() {
        return false;
    }
    for i in 0..a.len()
        invariant
            a@.len() == b@.len(),
            forall|j: int| 0 <= j < i ==> a@[j] == b@[j],
    {
        if a[i] != b[i] {
            return false;
        }
    }
    assert(a@ =~= b@);
    true
}

/// Quitar la base y volver a ponerla deja la ruta como estaba.
pub proof fn ley_quitar_y_poner_la_base(ruta: Seq<Seq<u8>>, base: Seq<Seq<u8>>)
    requires
        cuelga_de(ruta, base),
    ensures
        base + ruta.skip(base.len() as int) == ruta,
{
    assert(base + ruta.skip(base.len() as int) =~= ruta);
}

/// Unos nombres de texto, en bytes.
pub open spec fn codificados(nombres: Seq<Seq<char>>) -> Seq<Seq<u8>> {
    nombres.map_values(|n: Seq<char>| encode_utf8(n))
}

/// Codificar dos textos seguidos es codificar uno y luego el otro.
pub proof fn lemma_codificar_seguidos(a: Seq<char>, b: Seq<char>)
    ensures
        encode_utf8(a + b) == encode_utf8(a) + encode_utf8(b),
    decreases a.len(),
{
    if a.len() == 0 {
        assert(a + b =~= b);
        assert(encode_utf8(a) + encode_utf8(b) =~= encode_utf8(b));
    } else {
        lemma_codificar_seguidos(a.drop_first(), b);
        assert((a + b).drop_first() =~= a.drop_first() + b);
        assert(encode_utf8(a + b) =~= encode_utf8(a) + encode_utf8(b));
    }
}

/// Unos nombres de texto separados por barras son, en bytes, el texto de esos
/// nombres separados por barras.
pub proof fn lemma_con_barras_de_textos(nombres: Seq<Seq<char>>)
    ensures
        con_barras(codificados(nombres)) == encode_utf8(texto::unidos(nombres, "/"@)),
    decreases nombres.len(),
{
    if nombres.len() > 1 {
        let antes = nombres.drop_last();
        let barra = "/"@;
        lemma_con_barras_de_textos(antes);
        assert(codificados(nombres).drop_last() =~= codificados(antes));
        reveal_strlit("/");
        is_ascii_chars_encode_utf8(barra);
        assert(encode_utf8(barra) =~= seq![47u8]);
        lemma_codificar_seguidos(texto::unidos(antes, barra), barra);
        lemma_codificar_seguidos(texto::unidos(antes, barra) + barra, nombres.last());
    }
}

/// Una ruta cuelga de otra justo cuando es esa otra seguida de algo.
pub proof fn ley_colgar_es_continuar(a: Seq<Seq<u8>>, b: Seq<Seq<u8>>)
    ensures
        cuelga_de(a + b, a),
        cuelga_de(a, b) ==> exists|resto: Seq<Seq<u8>>| a == #[trigger] (b + resto),
{
    assert((a + b).take(a.len() as int) =~= a);
    if cuelga_de(a, b) {
        ley_quitar_y_poner_la_base(a, b);
    }
}

/// Los nombres de una ruta se separan con una barra, sólo en medio.
pub proof fn ley_las_barras_van_en_medio(partes: Seq<Seq<u8>>, ultima: Seq<u8>)
    ensures
        con_barras(Seq::empty()) == Seq::<u8>::empty(),
        con_barras(seq![ultima]) == ultima,
        partes.len() > 0 ==> con_barras(partes.push(ultima)) == con_barras(partes).push(47u8)
            + ultima,
{
    assert(partes.push(ultima).drop_last() =~= partes);
    assert(con_barras(partes) + seq![47u8] =~= con_barras(partes).push(47u8));
}

/// Una ruta se ve como la lista de sus nombres, en su orden.
pub proof fn ley_las_rutas_se_ven_como_son(ruta: Ruta, i: int)
    ensures
        ruta@.len() == ruta.partes@.len(),
        0 <= i < ruta@.len() ==> ruta@[i] == ruta.partes@[i]@,
{
}

} // verus!
