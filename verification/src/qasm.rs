//! The OpenQASM 2.0 names of standard gates.

use crate::text::text_is;
use crate::unitary::UnitaryExpression;
use vstd::prelude::*;

verus! {

/// `s` with every trailing `_subbed` removed.
pub open spec fn strip_subbed(s: Seq<char>) -> Seq<char>
    decreases s.len(),
{
    if s.len() >= 7 && s.subrange(s.len() - 7, s.len() as int) == "_subbed"@ {
        strip_subbed(s.subrange(0, s.len() - 7))
    } else {
        s
    }
}

/// `s` without a leading `Stacked_`, if it has one.
pub open spec fn strip_stacked(s: Seq<char>) -> Seq<char> {
    if s.len() >= 8 && s.subrange(0, 8) == "Stacked_"@ {
        s.subrange(8, s.len() as int)
    } else {
        s
    }
}

/// The base name under which an expression named `name` is looked up: the
/// name without trailing `_subbed` and then without a leading `Stacked_`.
pub open spec fn base_gate_name(name: Seq<char>) -> Seq<char> {
    strip_stacked(strip_subbed(name))
}

/// The OpenQASM 2.0 (`qelib1.inc`) identifier for the operation named
/// `name` on `n_qudits` qudits with `n_params` parameters, if there is one.
pub open spec fn qasm_table(name: Seq<char>, n_qudits: int, n_params: int) -> Option<Seq<char>> {
    if name == "U"@ && n_qudits == 1 && n_params == 3 {
        Some("U"@)
    } else if name == "U2"@ && n_qudits == 1 && n_params == 2 {
        Some("u2"@)
    } else if name == "U1"@ && n_qudits == 1 && n_params == 1 {
        Some("u1"@)
    } else if name == "I"@ && n_qudits == 1 && n_params == 0 {
        Some("id"@)
    } else if name == "X"@ && n_qudits == 1 && n_params == 0 {
        Some("x"@)
    } else if name == "Y"@ && n_qudits == 1 && n_params == 0 {
        Some("y"@)
    } else if name == "Z"@ && n_qudits == 1 && n_params == 0 {
        Some("z"@)
    } else if name == "H"@ && n_qudits == 1 && n_params == 0 {
        Some("h"@)
    } else if name == "S"@ && n_qudits == 1 && n_params == 0 {
        Some("s"@)
    } else if name == "T"@ && n_qudits == 1 && n_params == 0 {
        Some("t"@)
    } else if name == "SX"@ && n_qudits == 1 && n_params == 0 {
        Some("sx"@)
    } else if name == "P"@ && n_qudits == 1 && n_params == 1 {
        Some("p"@)
    } else if name == "RX"@ && n_qudits == 1 && n_params == 1 {
        Some("rx"@)
    } else if name == "RY"@ && n_qudits == 1 && n_params == 1 {
        Some("ry"@)
    } else if name == "RZ"@ && n_qudits == 1 && n_params == 1 {
        Some("rz"@)
    } else if name == "Swap"@ && n_qudits == 2 && n_params == 0 {
        Some("swap"@)
    } else if name == "RXX"@ && n_qudits == 2 && n_params == 1 {
        Some("rxx"@)
    } else if name == "RZZ"@ && n_qudits == 2 && n_params == 1 {
        Some("rzz"@)
    } else if name == "Controlled(X)"@ && n_qudits == 2 && n_params == 0 {
        Some("cx"@)
    } else if name == "Controlled(X)"@ && n_qudits == 3 && n_params == 0 {
        Some("ccx"@)
    } else if name == "Controlled(X)"@ && n_qudits == 4 && n_params == 0 {
        Some("c3x"@)
    } else if name == "Controlled(X)"@ && n_qudits == 5 && n_params == 0 {
        Some("c4x"@)
    } else if name == "Controlled(Z)"@ && n_qudits == 2 && n_params == 0 {
        Some("cz"@)
    } else if name == "Controlled(Y)"@ && n_qudits == 2 && n_params == 0 {
        Some("cy"@)
    } else if name == "Controlled(H)"@ && n_qudits == 2 && n_params == 0 {
        Some("ch"@)
    } else if name == "Controlled(Swap)"@ && n_qudits == 3 && n_params == 0 {
        Some("cswap"@)
    } else if name == "Controlled(SX)"@ && n_qudits == 2 && n_params == 0 {
        Some("csx"@)
    } else if name == "Controlled(RX)"@ && n_qudits == 2 && n_params == 1 {
        Some("crx"@)
    } else if name == "Controlled(RY)"@ && n_qudits == 2 && n_params == 1 {
        Some("cry"@)
    } else if name == "Controlled(RZ)"@ && n_qudits == 2 && n_params == 1 {
        Some("crz"@)
    } else if name == "Controlled(U1)"@ && n_qudits == 2 && n_params == 1 {
        Some("cu1"@)
    } else if name == "Controlled(P)"@ && n_qudits == 2 && n_params == 1 {
        Some("cp"@)
    } else if name == "Controlled(U)"@ && n_qudits == 2 && n_params == 3 {
        Some("cu3"@)
    } else if name == "Dagger(S)"@ && n_qudits == 1 && n_params == 0 {
        Some("sdg"@)
    } else if name == "Dagger(T)"@ && n_qudits == 1 && n_params == 0 {
        Some("tdg"@)
    } else if name == "Dagger(SX)"@ && n_qudits == 1 && n_params == 0 {
        Some("sxdg"@)
    } else {
        None
    }
}

/// The OpenQASM 2.0 identifier for the operation named `name` on `n_qudits`
/// qudits with `n_params` parameters, looked up in [`qasm_table`] under its
/// [`base_gate_name`].
pub fn qasm_gate_name_lookup(name: &str, n_qudits: usize, n_params: usize) -> (r: Option<&'static str>)
    ensures
        match r {
            Some(g) => qasm_table(base_gate_name(name@), n_qudits as int, n_params as int) == Some(g@),
            None => qasm_table(base_gate_name(name@), n_qudits as int, n_params as int) is None,
        },
{
    proof {
        reveal_strlit("_subbed");
        reveal_strlit("Stacked_");
    }
    let mut cur: &str = name;
    loop
        invariant
            strip_subbed(cur@) == strip_subbed(name@),
        ensures
            strip_subbed(cur@) == strip_subbed(name@),
            strip_subbed(cur@) == cur@,
        decreases cur@.len(),
    {
        let len = cur.unicode_len();
        if len >= 7 && text_is(&cur.substring_char(len - 7, len).to_owned(), "_subbed") {
            cur = cur.substring_char(0, len - 7);
        } else {
            break;
        }
    }
    assert(strip_subbed(cur@) == cur@);
    let len = cur.unicode_len();
    if len >= 8 && text_is(&cur.substring_char(0, 8).to_owned(), "Stacked_") {
        cur = cur.substring_char(8, len);
    }
    let base = cur.to_owned();
    assert(base@ == base_gate_name(name@));
    if n_qudits == 1 && n_params == 3 && text_is(&base, "U") {
        Some("U")
    } else if n_qudits == 1 && n_params == 2 && text_is(&base, "U2") {
        Some("u2")
    } else if n_qudits == 1 && n_params == 1 && text_is(&base, "U1") {
        Some("u1")
    } else if n_qudits == 1 && n_params == 0 && text_is(&base, "I") {
        Some("id")
    } else if n_qudits == 1 && n_params == 0 && text_is(&base, "X") {
        Some("x")
    } else if n_qudits == 1 && n_params == 0 && text_is(&base, "Y") {
        Some("y")
    } else if n_qudits == 1 && n_params == 0 && text_is(&base, "Z") {
        Some("z")
    } else if n_qudits == 1 && n_params == 0 && text_is(&base, "H") {
        Some("h")
    } else if n_qudits == 1 && n_params == 0 && text_is(&base, "S") {
        Some("s")
    } else if n_qudits == 1 && n_params == 0 && text_is(&base, "T") {
        Some("t")
    } else if n_qudits == 1 && n_params == 0 && text_is(&base, "SX") {
        Some("sx")
    } else if n_qudits == 1 && n_params == 1 && text_is(&base, "P") {
        Some("p")
    } else if n_qudits == 1 && n_params == 1 && text_is(&base, "RX") {
        Some("rx")
    } else if n_qudits == 1 && n_params == 1 && text_is(&base, "RY") {
        Some("ry")
    } else if n_qudits == 1 && n_params == 1 && text_is(&base, "RZ") {
        Some("rz")
    } else if n_qudits == 2 && n_params == 0 && text_is(&base, "Swap") {
        Some("swap")
    } else if n_qudits == 2 && n_params == 1 && text_is(&base, "RXX") {
        Some("rxx")
    } else if n_qudits == 2 && n_params == 1 && text_is(&base, "RZZ") {
        Some("rzz")
    } else if n_qudits == 2 && n_params == 0 && text_is(&base, "Controlled(X)") {
        Some("cx")
    } else if n_qudits == 3 && n_params == 0 && text_is(&base, "Controlled(X)") {
        Some("ccx")
    } else if n_qudits == 4 && n_params == 0 && text_is(&base, "Controlled(X)") {
        Some("c3x")
    } else if n_qudits == 5 && n_params == 0 && text_is(&base, "Controlled(X)") {
        Some("c4x")
    } else if n_qudits == 2 && n_params == 0 && text_is(&base, "Controlled(Z)") {
        Some("cz")
    } else if n_qudits == 2 && n_params == 0 && text_is(&base, "Controlled(Y)") {
        Some("cy")
    } else if n_qudits == 2 && n_params == 0 && text_is(&base, "Controlled(H)") {
        Some("ch")
    } else if n_qudits == 3 && n_params == 0 && text_is(&base, "Controlled(Swap)") {
        Some("cswap")
    } else if n_qudits == 2 && n_params == 0 && text_is(&base, "Controlled(SX)") {
        Some("csx")
    } else if n_qudits == 2 && n_params == 1 && text_is(&base, "Controlled(RX)") {
        Some("crx")
    } else if n_qudits == 2 && n_params == 1 && text_is(&base, "Controlled(RY)") {
        Some("cry")
    } else if n_qudits == 2 && n_params == 1 && text_is(&base, "Controlled(RZ)") {
        Some("crz")
    } else if n_qudits == 2 && n_params == 1 && text_is(&base, "Controlled(U1)") {
        Some("cu1")
    } else if n_qudits == 2 && n_params == 1 && text_is(&base, "Controlled(P)") {
        Some("cp")
    } else if n_qudits == 2 && n_params == 3 && text_is(&base, "Controlled(U)") {
        Some("cu3")
    } else if n_qudits == 1 && n_params == 0 && text_is(&base, "Dagger(S)") {
        Some("sdg")
    } else if n_qudits == 1 && n_params == 0 && text_is(&base, "Dagger(T)") {
        Some("tdg")
    } else if n_qudits == 1 && n_params == 0 && text_is(&base, "Dagger(SX)") {
        Some("sxdg")
    } else {
        None
    }
}

/// Trailing `_subbed` suffixes do not change the base name, nor so the
/// OpenQASM identifier looked up for it.
pub proof fn law_subbed_suffix_ignored(name: Seq<char>)
    ensures
        base_gate_name(name + "_subbed"@) == base_gate_name(name),
{
    reveal_strlit("_subbed");
    let s = name + "_subbed"@;
    assert(s.subrange(s.len() - 7, s.len() as int) =~= "_subbed"@);
    assert(s.subrange(0, s.len() - 7) =~= name);
}

impl UnitaryExpression {
    /// The OpenQASM 2.0 name of this gate, from its name, its number of
    /// qudits and its number of parameters, if it has one.
    pub fn qasm_name(&self) -> (r: Option<&'static str>)
        ensures
            match r {
                Some(g) => qasm_table(
                    base_gate_name(self@.name),
                    self@.radices.len() as int,
                    self@.variables.len() as int,
                ) == Some(g@),
                None => qasm_table(
                    base_gate_name(self@.name),
                    self@.radices.len() as int,
                    self@.variables.len() as int,
                ) is None,
            },
    {
        qasm_gate_name_lookup(self.name(), self.num_qudits(), self.num_params())
    }
}

} // verus!
