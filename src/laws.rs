use vstd::prelude::*;

use crate::contract::HelloState;

verus! {

/// One call to the contract, with its arguments as mathematical values and,
/// where the caller must prove its identity, whether it did.
pub enum Llamada {
    Initialize { admin: Seq<u8> },
    Hello { usuario: Seq<u8>, nombre: Seq<char>, autorizado: bool },
    Reset { caller: Seq<u8>, autorizado: bool },
}

/// Whether `c` succeeds on the contract in state `s`.
pub open spec fn exito(s: HelloState, c: Llamada) -> bool {
    match c {
        Llamada::Initialize { admin } => s.initialize(admin).1 is Ok,
        Llamada::Hello { usuario, nombre, autorizado } => s.hello(usuario, nombre, autorizado).1 is Ok,
        Llamada::Reset { caller, autorizado } => s.reset_contador(caller, autorizado).1 is Ok,
    }
}

/// The state after `c` on the contract in state `s`.
pub open spec fn siguiente(s: HelloState, c: Llamada) -> HelloState {
    match c {
        Llamada::Initialize { admin } => s.initialize(admin).0,
        Llamada::Hello { usuario, nombre, autorizado } => s.hello(usuario, nombre, autorizado).0,
        Llamada::Reset { caller, autorizado } => s.reset_contador(caller, autorizado).0,
    }
}

/// The state after the calls `ll`, in order, on a fresh contract.
#[verifier::opaque]
pub open spec fn ejecutar(ll: Seq<Llamada>) -> HelloState
    decreases ll.len(),
{
    if ll.len() == 0 {
        HelloState::inicial()
    } else {
        siguiente(ejecutar(ll.drop_last()), ll.last())
    }
}

/// The state in which the call at position `i` of `ll` runs.
pub open spec fn antes(ll: Seq<Llamada>, i: int) -> HelloState {
    ejecutar(ll.take(i))
}

/// The call at position `i` is a `hello` that succeeded.
pub open spec fn hello_exitoso(ll: Seq<Llamada>, i: int) -> bool {
    ll[i] is Hello && exito(antes(ll, i), ll[i])
}

/// The call at position `i` is a `hello` by `a` that succeeded.
pub open spec fn hello_exitoso_de(ll: Seq<Llamada>, i: int, a: Seq<u8>) -> bool {
    match ll[i] {
        Llamada::Hello { usuario, .. } => usuario == a && exito(antes(ll, i), ll[i]),
        _ => false,
    }
}

/// The name of the call at position `i`, where it is a `hello`.
pub open spec fn nombre_de(ll: Seq<Llamada>, i: int) -> Seq<char> {
    match ll[i] {
        Llamada::Hello { nombre, .. } => nombre,
        _ => Seq::empty(),
    }
}

/// The call at position `i` zeroed the counter: a successful `initialize`
/// or `reset_contador`.
pub open spec fn pone_a_cero(ll: Seq<Llamada>, i: int) -> bool {
    !(ll[i] is Hello) && exito(antes(ll, i), ll[i])
}

/// The call at position `i` is an `initialize` that succeeded.
pub open spec fn inicializa(ll: Seq<Llamada>, i: int) -> bool {
    ll[i] is Initialize && exito(antes(ll, i), ll[i])
}

/// The number of successful `hello` calls at positions `desde` to `hasta - 1`.
pub open spec fn cuenta_hellos(ll: Seq<Llamada>, desde: int, hasta: int) -> nat
    decreases hasta - desde,
{
    if hasta <= desde {
        0
    } else {
        cuenta_hellos(ll, desde, hasta - 1) + if hello_exitoso(ll, hasta - 1) {
            1nat
        } else {
            0nat
        }
    }
}

proof fn lemma_antes_siguiente(ll: Seq<Llamada>, k: int)
    requires
        0 <= k < ll.len(),
    ensures
        antes(ll, k + 1) == siguiente(antes(ll, k), ll[k]),
{
    assert(ll.take(k + 1).drop_last() =~= ll.take(k));
    reveal(ejecutar);
}

proof fn lemma_antes_cero(ll: Seq<Llamada>)
    ensures
        antes(ll, 0) == HelloState::inicial(),
{
    assert(ll.take(0) =~= Seq::<Llamada>::empty());
    reveal(ejecutar);
}

proof fn lemma_antes_todo(ll: Seq<Llamada>)
    ensures
        antes(ll, ll.len() as int) == ejecutar(ll),
{
    assert(ll.take(ll.len() as int) =~= ll);
}

proof fn lemma_paso_ultimo_saludo(s: HelloState, c: Llamada, a: Seq<u8>)
    ensures
        (c is Hello && c->Hello_usuario == a && exito(s, c)) ==> siguiente(s, c).ultimo_saludo(a)
            == Some(c->Hello_nombre),
        !(c is Hello && c->Hello_usuario == a && exito(s, c)) ==> siguiente(s, c).ultimo_saludo(a)
            == s.ultimo_saludo(a),
{
    if let Llamada::Hello { usuario, nombre, autorizado } = c {
        if exito(s, c) && usuario != a {
            assert(siguiente(s, c).saludos == s.saludos.insert(usuario, nombre));
        }
    }
}

proof fn lemma_ultimo_saludo_hasta(ll: Seq<Llamada>, a: Seq<u8>, k: int)
    requires
        0 <= k <= ll.len(),
    ensures
        (forall|i: int| 0 <= i < k ==> !hello_exitoso_de(ll, i, a)) ==> antes(ll, k).ultimo_saludo(a)
            is None,
        forall|i: int|
            0 <= i < k && hello_exitoso_de(ll, i, a) && (forall|j: int|
                i < j < k ==> !hello_exitoso_de(ll, j, a)) ==> antes(ll, k).ultimo_saludo(a) == Some(
                nombre_de(ll, i),
            ),
    decreases k,
{
    if k == 0 {
        lemma_antes_cero(ll);
    } else {
        lemma_ultimo_saludo_hasta(ll, a, k - 1);
        lemma_antes_siguiente(ll, k - 1);
        lemma_paso_ultimo_saludo(antes(ll, k - 1), ll[k - 1], a);
        let ult = k - 1;
        assert(hello_exitoso_de(ll, ult, a) == (ll[ult] is Hello && ll[ult]->Hello_usuario == a
            && exito(antes(ll, ult), ll[ult])));
        assert forall|i: int|
            0 <= i < k && hello_exitoso_de(ll, i, a) && (forall|j: int|
                i < j < k ==> !hello_exitoso_de(ll, j, a)) implies antes(ll, k).ultimo_saludo(a)
            == Some(nombre_de(ll, i)) by {
            if i < ult {
                assert(!hello_exitoso_de(ll, ult, a));
            }
        }
    }
}

/// Of every address, a contract that ran the calls `ll` from fresh has no
/// last greeting while no `hello` by that address has succeeded, and from then
/// on has the name of the latest such `hello`.
pub proof fn ley_ultimo_saludo(ll: Seq<Llamada>, a: Seq<u8>)
    ensures
        (forall|i: int| 0 <= i < ll.len() ==> !hello_exitoso_de(ll, i, a)) ==> ejecutar(
            ll,
        ).ultimo_saludo(a) is None,
        forall|i: int|
            0 <= i < ll.len() && hello_exitoso_de(ll, i, a) && (forall|j: int|
                i < j < ll.len() ==> !hello_exitoso_de(ll, j, a)) ==> ejecutar(ll).ultimo_saludo(a)
                == Some(nombre_de(ll, i)),
{
    lemma_ultimo_saludo_hasta(ll, a, ll.len() as int);
    lemma_antes_todo(ll);
}

proof fn lemma_paso_contador(s: HelloState, c: Llamada)
    ensures
        (c is Hello && exito(s, c)) ==> siguiente(s, c).contador == s.contador + 1,
        (!(c is Hello) && exito(s, c)) ==> siguiente(s, c).contador == 0,
        !exito(s, c) ==> siguiente(s, c) == s,
{
}

proof fn lemma_contador_hasta(ll: Seq<Llamada>, k: int)
    requires
        0 <= k <= ll.len(),
    ensures
        (forall|i: int| 0 <= i < k ==> !pone_a_cero(ll, i)) ==> antes(ll, k).contador
            == cuenta_hellos(ll, 0, k),
        forall|r: int|
            0 <= r < k && pone_a_cero(ll, r) && (forall|j: int| r < j < k ==> !pone_a_cero(ll, j))
                ==> antes(ll, k).contador == cuenta_hellos(ll, r + 1, k),
    decreases k,
{
    if k == 0 {
        lemma_antes_cero(ll);
    } else {
        let ult = k - 1;
        lemma_contador_hasta(ll, ult);
        lemma_antes_siguiente(ll, ult);
        lemma_paso_contador(antes(ll, ult), ll[ult]);
        assert(cuenta_hellos(ll, 0, k) == cuenta_hellos(ll, 0, ult) + if hello_exitoso(ll, ult) {
            1nat
        } else {
            0nat
        });
        if forall|i: int| 0 <= i < k ==> !pone_a_cero(ll, i) {
            assert(!pone_a_cero(ll, ult));
        }
        assert forall|r: int|
            0 <= r < k && pone_a_cero(ll, r) && (forall|j: int| r < j < k ==> !pone_a_cero(ll, j))
                implies antes(ll, k).contador == cuenta_hellos(ll, r + 1, k) by {
            if r < ult {
                assert(!pone_a_cero(ll, ult));
                assert(cuenta_hellos(ll, r + 1, k) == cuenta_hellos(ll, r + 1, ult) + if hello_exitoso(
                    ll,
                    ult,
                ) {
                    1nat
                } else {
                    0nat
                });
            } else {
                assert(cuenta_hellos(ll, r + 1, k) == 0);
            }
        }
    }
}

/// A contract that ran the calls `ll` from fresh counts the `hello` calls that
/// succeeded after the last call that zeroed the counter (a successful
/// `initialize` or `reset_contador`), or since the start where none did; calls
/// that failed count for nothing.
pub proof fn ley_contador(ll: Seq<Llamada>)
    ensures
        (forall|i: int| 0 <= i < ll.len() ==> !pone_a_cero(ll, i)) ==> ejecutar(ll).contador
            == cuenta_hellos(ll, 0, ll.len() as int),
        forall|r: int|
            0 <= r < ll.len() && pone_a_cero(ll, r) && (forall|j: int|
                r < j < ll.len() ==> !pone_a_cero(ll, j)) ==> ejecutar(ll).contador == cuenta_hellos(
                ll,
                r + 1,
                ll.len() as int,
            ),
{
    lemma_contador_hasta(ll, ll.len() as int);
    lemma_antes_todo(ll);
}

proof fn lemma_admin_hasta(ll: Seq<Llamada>, k: int)
    requires
        0 <= k <= ll.len(),
    ensures
        antes(ll, k).admin is Some <==> exists|i: int| 0 <= i < k && inicializa(ll, i),
    decreases k,
{
    if k == 0 {
        lemma_antes_cero(ll);
    } else {
        let ult = k - 1;
        lemma_admin_hasta(ll, ult);
        lemma_antes_siguiente(ll, ult);
        if exists|i: int| 0 <= i < k && inicializa(ll, i) {
            let i = choose|i: int| 0 <= i < k && inicializa(ll, i);
            if i < ult {
                assert(antes(ll, ult).admin is Some);
            }
        }
        if inicializa(ll, ult) {
            assert(antes(ll, k).admin is Some);
        }
        if !(exists|i: int| 0 <= i < k && inicializa(ll, i)) {
            assert(!inicializa(ll, ult));
            assert(forall|i: int| 0 <= i < ult ==> !inicializa(ll, i));
        }
    }
}

/// In a run of calls `ll` on a fresh contract, an `initialize` succeeds exactly
/// when no earlier `initialize` has; one that fails leaves the contract as it
/// was.
pub proof fn ley_inicializar_una_vez(ll: Seq<Llamada>, j: int)
    requires
        0 <= j < ll.len(),
        ll[j] is Initialize,
    ensures
        exito(antes(ll, j), ll[j]) <==> !(exists|i: int| 0 <= i < j && inicializa(ll, i)),
        !exito(antes(ll, j), ll[j]) ==> antes(ll, j + 1) == antes(ll, j),
{
    lemma_admin_hasta(ll, j);
    lemma_antes_siguiente(ll, j);
}

} // verus!
