use vstd::prelude::*;

use crate::address::Address;
use crate::error::Error;

verus! {

/// The most characters a greeting name may hold.
pub const LARGO_MAXIMO: usize = 32;

/// What the contract holds, as mathematical values: the admin once set, the
/// number of greetings since the counter was last zeroed, and the last accepted
/// name of each address that has greeted.
pub struct HelloState {
    pub admin: Option<Seq<u8>>,
    pub contador: nat,
    pub saludos: Map<Seq<u8>, Seq<char>>,
}

/// The greeting that a successful `hello` answers with.
pub open spec fn saludo() -> Seq<char> {
    seq!['H', 'o', 'l', 'a']
}

impl HelloState {
    /// A contract that nobody has initialized yet.
    pub open spec fn inicial() -> HelloState {
        HelloState { admin: None, contador: 0, saludos: Map::empty() }
    }

    /// `initialize`: sets the admin and zeroes the counter, once.
    pub open spec fn initialize(self, admin: Seq<u8>) -> (HelloState, Result<(), Error>) {
        if self.admin is Some {
            (self, Err(Error::YaInicializado))
        } else {
            (HelloState { admin: Some(admin), contador: 0, saludos: self.saludos }, Ok(()))
        }
    }

    /// Why `hello` refuses a call, if it does.
    pub open spec fn rechazo_hello(autorizado: bool, nombre: Seq<char>) -> Option<Error> {
        if !autorizado {
            Some(Error::AutorizacionFallida)
        } else if nombre.len() == 0 {
            Some(Error::NombreVacio)
        } else if nombre.len() > LARGO_MAXIMO {
            Some(Error::NombreMuyLargo)
        } else {
            None
        }
    }

    /// `hello`: counts the greeting and records the name as the user's last one.
    pub open spec fn hello(self, usuario: Seq<u8>, nombre: Seq<char>, autorizado: bool) -> (
        HelloState,
        Result<Seq<char>, Error>,
    ) {
        match Self::rechazo_hello(autorizado, nombre) {
            Some(e) => (self, Err(e)),
            None => (
                HelloState {
                    admin: self.admin,
                    contador: self.contador + 1,
                    saludos: self.saludos.insert(usuario, nombre),
                },
                Ok(saludo()),
            ),
        }
    }

    /// `reset_contador`: zeroes the counter, for the admin only.
    pub open spec fn reset_contador(self, caller: Seq<u8>, autorizado: bool) -> (
        HelloState,
        Result<(), Error>,
    ) {
        match self.admin {
            None => (self, Err(Error::NoInicializado)),
            Some(admin) => if !autorizado {
                (self, Err(Error::AutorizacionFallida))
            } else if caller != admin {
                (self, Err(Error::NoAutorizado))
            } else {
                (HelloState { contador: 0, ..self }, Ok(()))
            },
        }
    }

    /// `get_ultimo_saludo`: the last accepted name of `usuario`, if any.
    pub open spec fn ultimo_saludo(self, usuario: Seq<u8>) -> Option<Seq<char>> {
        if self.saludos.contains_key(usuario) {
            Some(self.saludos[usuario])
        } else {
            None
        }
    }
}

/// Pairs of (address, name) seen as mathematical values.
pub open spec fn vista_pares(v: Seq<(Address, String)>) -> Seq<(Seq<u8>, Seq<char>)> {
    v.map_values(|p: (Address, String)| (p.0@, p.1@))
}

/// The map that a list of (address, name) pairs stands for; a later pair wins.
pub open spec fn mapa_de(s: Seq<(Seq<u8>, Seq<char>)>) -> Map<Seq<u8>, Seq<char>>
    decreases s.len(),
{
    if s.len() == 0 {
        Map::empty()
    } else {
        mapa_de(s.drop_last()).insert(s.last().0, s.last().1)
    }
}

/// No address occurs twice in the list.
pub open spec fn claves_unicas(s: Seq<(Seq<u8>, Seq<char>)>) -> bool {
    forall|i: int, j: int| 0 <= i < j < s.len() ==> s[i].0 != s[j].0
}

proof fn lemma_mapa_dominio(s: Seq<(Seq<u8>, Seq<char>)>, k: Seq<u8>)
    ensures
        mapa_de(s).contains_key(k) <==> exists|i: int| 0 <= i < s.len() && s[i].0 == k,
    decreases s.len(),
{
    if s.len() > 0 {
        lemma_mapa_dominio(s.drop_last(), k);
        if mapa_de(s.drop_last()).contains_key(k) {
            let i = choose|i: int| 0 <= i < s.drop_last().len() && s.drop_last()[i].0 == k;
            assert(s[i].0 == k);
        }
        if exists|i: int| 0 <= i < s.len() && s[i].0 == k {
            let i = choose|i: int| 0 <= i < s.len() && s[i].0 == k;
            if i < s.len() - 1 {
                assert(s.drop_last()[i].0 == k);
            }
        }
    }
}

proof fn lemma_mapa_en(s: Seq<(Seq<u8>, Seq<char>)>, i: int)
    requires
        claves_unicas(s),
        0 <= i < s.len(),
    ensures
        mapa_de(s).contains_key(s[i].0),
        mapa_de(s)[s[i].0] == s[i].1,
    decreases s.len(),
{
    if i < s.len() - 1 {
        lemma_mapa_en(s.drop_last(), i);
    }
}

proof fn lemma_mapa_actualizar(s: Seq<(Seq<u8>, Seq<char>)>, i: int, v: Seq<char>)
    requires
        claves_unicas(s),
        0 <= i < s.len(),
    ensures
        mapa_de(s.update(i, (s[i].0, v))) == mapa_de(s).insert(s[i].0, v),
    decreases s.len(),
{
    let t = s.update(i, (s[i].0, v));
    if i == s.len() - 1 {
        assert(t.drop_last() =~= s.drop_last());
        assert(mapa_de(t) =~= mapa_de(s).insert(s[i].0, v));
    } else {
        assert(t.drop_last() =~= s.drop_last().update(i, (s[i].0, v)));
        lemma_mapa_actualizar(s.drop_last(), i, v);
        assert(mapa_de(t) =~= mapa_de(s).insert(s[i].0, v));
    }
}

/// The greeting contract: an admin set once, a counter of greetings, and the
/// last accepted name of each address.
pub struct HelloContract {
    admin: Option<Address>,
    contador: u32,
    saludos: Vec<(Address, String)>,
}

impl View for HelloContract {
    type V = HelloState;

    closed spec fn view(&self) -> HelloState {
        HelloState {
            admin: match self.admin {
                Some(a) => Some(a@),
                None => None,
            },
            contador: self.contador as nat,
            saludos: mapa_de(vista_pares(self.saludos@)),
        }
    }
}


/// Whether `nombre` holds more than `LARGO_MAXIMO` characters.
fn excede_largo(nombre: &str) -> (r: bool)
    ensures
        r == (nombre@.len() > LARGO_MAXIMO),
{
    let mut n: usize = 0;
    for c in it: nombre.chars()
        invariant
            n == it.index(),
            n <= LARGO_MAXIMO,
            it.seq() == nombre@,
    {
        if n == LARGO_MAXIMO {
            return true;
        }
        n = n + 1;
    }
    false
}

impl HelloContract {
    /// The library's invariant: no address has two records.
    pub closed spec fn wf(&self) -> bool {
        claves_unicas(vista_pares(self.saludos@))
    }

    /// A contract that nobody has initialized yet.
    pub fn new() -> (r: HelloContract)
        ensures
            r.wf(),
            r@ == HelloState::inicial(),
    {
        let r = HelloContract { admin: None, contador: 0, saludos: Vec::new() };
        assert(r@.saludos =~= Map::empty());
        r
    }

    /// A contract with the given admin and counter and no greeting records, as
    /// a host that keeps the records apart loads it for one call.
    pub fn restaurar(admin: Option<Address>, contador: u32) -> (r: HelloContract)
        ensures
            r.wf(),
            r@.admin == (match admin {
                Some(a) => Some(a@),
                None => None::<Seq<u8>>,
            }),
            r@.contador == contador,
            r@.saludos == Map::<Seq<u8>, Seq<char>>::empty(),
    {
        let r = HelloContract { admin, contador, saludos: Vec::new() };
        assert(r@.saludos =~= Map::empty());
        r
    }

    /// The position of `usuario`'s record, if it has one.
    fn buscar(&self, usuario: &Address) -> (r: Option<usize>)
        requires
            self.wf(),
        ensures
            match r {
                Some(i) => i < self.saludos@.len() && self.saludos@[i as int].0@ == usuario@,
                None => !self@.saludos.contains_key(usuario@),
            },
    {
        let n = self.saludos.len();
        for i in 0..n
            invariant
                n == self.saludos@.len(),
                forall|j: int| 0 <= j < i ==> self.saludos@[j].0@ != usuario@,
        {
            if self.saludos[i].0.same_as(usuario) {
                return Some(i);
            }
        }
        proof {
            let s = vista_pares(self.saludos@);
            lemma_mapa_dominio(s, usuario@);
            if s.len() > 0 && exists|i: int| 0 <= i < s.len() && s[i].0 == usuario@ {
                let i = choose|i: int| 0 <= i < s.len() && s[i].0 == usuario@;
                assert(self.saludos@[i].0@ == usuario@);
            }
        }
        None
    }

    /// Sets `admin` as the admin and zeroes the counter; fails with
    /// `YaInicializado`, changing nothing, when an admin is already set.
    pub fn initialize(&mut self, admin: Address) -> (r: Result<(), Error>)
        requires
            old(self).wf(),
        ensures
            final(self).wf(),
            (final(self)@, r) == old(self)@.initialize(admin@),
            r is Ok <==> old(self)@.admin is None,
            r is Err ==> final(self)@ == old(self)@ && r == Err::<(), Error>(Error::YaInicializado),
    {
        if self.admin.is_some() {
            return Err(Error::YaInicializado);
        }
        self.admin = Some(admin);
        self.contador = 0;
        Ok(())
    }

    /// Greets on behalf of `usuario`: counts the greeting and keeps `nombre` as
    /// the user's last one. `autorizado` tells whether the caller proved that it
    /// is `usuario`. Fails, changing nothing, when it did not, or when `nombre`
    /// is empty or longer than `LARGO_MAXIMO` characters. The counter must have
    /// room for one more greeting.
    pub fn hello(&mut self, usuario: Address, nombre: String, autorizado: bool) -> (r: Result<
        String,
        Error,
    >)
        requires
            old(self).wf(),
            old(self)@.contador < u32::MAX,
        ensures
            final(self).wf(),
            final(self)@ == old(self)@.hello(usuario@, nombre@, autorizado).0,
            match r {
                Ok(s) => old(self)@.hello(usuario@, nombre@, autorizado).1 == Ok::<Seq<char>, Error>(s@),
                Err(e) => old(self)@.hello(usuario@, nombre@, autorizado).1 == Err::<Seq<char>, Error>(e),
            },
            r is Ok <==> HelloState::rechazo_hello(autorizado, nombre@) is None,
            r is Ok ==> final(self)@.contador == old(self)@.contador + 1 && final(self)@.saludos
                == old(self)@.saludos.insert(usuario@, nombre@),
            r is Err ==> final(self)@ == old(self)@,
    {
        if !autorizado {
            return Err(Error::AutorizacionFallida);
        }
        if nombre.as_str().is_empty() {
            return Err(Error::NombreVacio);
        }
        if excede_largo(nombre.as_str()) {
            return Err(Error::NombreMuyLargo);
        }
        self.contador = self.contador + 1;
        let ghost pares = vista_pares(self.saludos@);
        match self.buscar(&usuario) {
            Some(i) => {
                proof {
                    lemma_mapa_actualizar(pares, i as int, nombre@);
                }
                self.saludos.set(i, (usuario, nombre));
                assert(vista_pares(self.saludos@) =~= pares.update(i as int, (pares[i as int].0, nombre@)));
            },
            None => {
                proof {
                    lemma_mapa_dominio(pares, usuario@);
                }
                self.saludos.push((usuario, nombre));
                assert(vista_pares(self.saludos@) =~= pares.push((usuario@, nombre@)));
                assert(vista_pares(self.saludos@).drop_last() =~= pares);
            },
        }
        let s = "Hola".to_owned();
        proof {
            reveal_strlit("Hola");
            assert(s@ =~= saludo());
        }
        Ok(s)
    }

    /// The number of greetings since the counter was last zeroed.
    pub fn get_contador(&self) -> (r: u32)
        ensures
            r == self@.contador,
    {
        self.contador
    }

    /// The last name that `usuario` greeted with, or `None` if it never did.
    pub fn get_ultimo_saludo(&self, usuario: &Address) -> (r: Option<String>)
        requires
            self.wf(),
        ensures
            match r {
                Some(s) => self@.ultimo_saludo(usuario@) == Some(s@),
                None => self@.ultimo_saludo(usuario@) is None,
            },
    {
        match self.buscar(usuario) {
            Some(i) => {
                proof {
                    lemma_mapa_en(vista_pares(self.saludos@), i as int);
                }
                Some(self.saludos[i].1.clone())
            },
            None => None,
        }
    }

    /// Zeroes the counter. `autorizado` tells whether the caller proved that it
    /// is `caller`. Fails, changing nothing, with `NoInicializado` when there is
    /// no admin, then `AutorizacionFallida` when the proof is missing, then
    /// `NoAutorizado` when `caller` is not the admin.
    pub fn reset_contador(&mut self, caller: &Address, autorizado: bool) -> (r: Result<(), Error>)
        requires
            old(self).wf(),
        ensures
            final(self).wf(),
            (final(self)@, r) == old(self)@.reset_contador(caller@, autorizado),
            r is Ok <==> (old(self)@.admin == Some(caller@) && autorizado),
            r is Ok ==> final(self)@.contador == 0 && final(self)@.admin == old(self)@.admin
                && final(self)@.saludos == old(self)@.saludos,
            r is Err ==> final(self)@ == old(self)@,
    {
        let es_admin = match &self.admin {
            None => {
                return Err(Error::NoInicializado);
            },
            Some(admin) => caller.same_as(admin),
        };
        if !autorizado {
            return Err(Error::AutorizacionFallida);
        }
        if !es_admin {
            return Err(Error::NoAutorizado);
        }
        self.contador = 0;
        Ok(())
    }
}

} // verus!
