//! Conjuntos de textos y los paquetes del workspace.

use vstd::hash_map::StringHashMap;
use vstd::hash_set::StringHashSet;
use vstd::prelude::*;

verus! {

/// Un conjunto de textos.
pub struct Conjunto {
    elementos: StringHashSet,
}

impl View for Conjunto {
    type V = Set<Seq<char>>;

    closed spec fn view(&self) -> Set<Seq<char>> {
        self.elementos@
    }
}

impl Conjunto {
    /// El conjunto vacío.
    pub fn new() -> (r: Conjunto)
        ensures
            r@ == Set::<Seq<char>>::empty(),
    {
        Conjunto { elementos: StringHashSet::new() }
    }

    /// Agrega un texto; dice si no estaba.
    pub fn insert(&mut self, texto: String) -> (r: bool)
        ensures
            final(self)@ == old(self)@.insert(texto@),
            r == !old(self)@.contains(texto@),
    {
        self.elementos.insert(texto)
    }

    /// ¿Está el texto en el conjunto?
    pub fn contains(&self, texto: &str) -> (r: bool)
        ensures
            r == self@.contains(texto@),
    {
        self.elementos.contains(texto)
    }

    /// Cuántos textos hay.
    pub fn len(&self) -> (r: usize)
        ensures
            r == self@.len(),
    {
        self.elementos.len()
    }
}

/// Los paquetes del workspace y, por cada uno, los targets que declara.
pub struct Miembros {
    paquetes: StringHashMap<Conjunto>,
}

impl View for Miembros {
    type V = Map<Seq<char>, Set<Seq<char>>>;

    closed spec fn view(&self) -> Map<Seq<char>, Set<Seq<char>>> {
        self.paquetes@.map_values(|targets: Conjunto| targets@)
    }
}

impl Miembros {
    /// Un workspace sin paquetes.
    pub fn new() -> (r: Miembros)
        ensures
            r@ == Map::<Seq<char>, Set<Seq<char>>>::empty(),
    {
        let r = Miembros { paquetes: StringHashMap::new() };
        assert(r@ =~= Map::<Seq<char>, Set<Seq<char>>>::empty());
        r
    }

    /// Declara un paquete con sus targets; sustituye al que tuviera ese nombre.
    pub fn insert(&mut self, paquete: String, targets: Conjunto)
        ensures
            final(self)@ == old(self)@.insert(paquete@, targets@),
    {
        self.paquetes.insert(paquete, targets);
        assert(self@ =~= old(self)@.insert(paquete@, targets@));
    }

    /// Los targets que declara un paquete.
    pub fn get(&self, paquete: &str) -> (r: Option<&Conjunto>)
        ensures
            match r {
                Some(targets) => self@.contains_key(paquete@) && targets@ == self@[paquete@],
                None => !self@.contains_key(paquete@),
            },
    {
        self.paquetes.get(paquete)
    }

    /// Cuántos paquetes hay.
    pub fn len(&self) -> (r: usize)
        ensures
            r == self@.len(),
    {
        let n = self.paquetes.len();
        assert(self@.dom() =~= self.paquetes@.dom());
        n
    }

    /// ¿No hay ningún paquete?
    pub fn is_empty(&self) -> (r: bool)
        ensures
            r == (self@ == Map::<Seq<char>, Set<Seq<char>>>::empty()),
    {
        let r = self.paquetes.is_empty();
        assert(self@.dom() =~= self.paquetes@.dom());
        assert(r ==> self@ =~= Map::<Seq<char>, Set<Seq<char>>>::empty());
        r
    }
}

} // verus!
