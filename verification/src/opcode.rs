//! The closed set of operations and their numeric tags.

use vstd::prelude::*;
use vstd::string::StrSliceExecFns;

verus! {

/// One of the five operations the machine understands. Tags 1 through 5
/// identify them inside an instruction word; tag 0 and every tag above 5
/// mean "not a valid instruction" and halt the machine.
#[derive(Clone, Copy, Debug, PartialEq, Eq, Structural)]
pub enum Opcode {
    Load,
    Store,
    Move,
    Add,
    Sub,
}

/// The numeric tag that identifies `op` inside an instruction word.
pub open spec fn spec_tag(op: Opcode) -> u64 {
    match op {
        Opcode::Load => 1,
        Opcode::Store => 2,
        Opcode::Move => 3,
        Opcode::Add => 4,
        Opcode::Sub => 5,
    }
}

/// `a` is the character `l` up to ASCII case, where `l` is a lower-case letter.
pub open spec fn char_eq_ci(a: char, l: char) -> bool {
    a == l || ('A' as u32 <= a as u32 && a as u32 <= 'Z' as u32 && a as u32 + 32 == l as u32)
}

/// Two characters with the same Unicode scalar value are the same
/// character.
pub proof fn lemma_char_cast_injective(a: char, b: char)
    requires
        a as u32 == b as u32,
    ensures
        a == b,
{
}

/// `t` spells the lower-case word `p` up to ASCII case.
pub open spec fn token_eq_ci(t: Seq<char>, p: Seq<char>) -> bool {
    t.len() == p.len() && (forall|i: int| 0 <= i < t.len() ==> char_eq_ci(t[i], p[i]))
}

impl Opcode {
    /// The opcode whose tag is `value`, if any.
    pub open spec fn spec_from_u64(value: u64) -> Option<Opcode> {
        if value == 1 {
            Some(Opcode::Load)
        } else if value == 2 {
            Some(Opcode::Store)
        } else if value == 3 {
            Some(Opcode::Move)
        } else if value == 4 {
            Some(Opcode::Add)
        } else if value == 5 {
            Some(Opcode::Sub)
        } else {
            None
        }
    }

    /// The opcode whose mnemonic is `t`, compared case-insensitively.
    pub open spec fn spec_from_mnemonic(t: Seq<char>) -> Option<Opcode> {
        if token_eq_ci(t, seq!['l', 'o', 'a', 'd']) {
            Some(Opcode::Load)
        } else if token_eq_ci(t, seq!['s', 't', 'o', 'r', 'e']) {
            Some(Opcode::Store)
        } else if token_eq_ci(t, seq!['m', 'o', 'v', 'e']) {
            Some(Opcode::Move)
        } else if token_eq_ci(t, seq!['a', 'd', 'd']) {
            Some(Opcode::Add)
        } else if token_eq_ci(t, seq!['s', 'u', 'b']) {
            Some(Opcode::Sub)
        } else {
            None
        }
    }

    pub fn from_u64(value: u64) -> (r: Option<Opcode>)
        ensures
            r == Opcode::spec_from_u64(value),
    {
        if value == 1 {
            Some(Opcode::Load)
        } else if value == 2 {
            Some(Opcode::Store)
        } else if value == 3 {
            Some(Opcode::Move)
        } else if value == 4 {
            Some(Opcode::Add)
        } else if value == 5 {
            Some(Opcode::Sub)
        } else {
            None
        }
    }

    /// The tag of this opcode; always between 1 and 5.
    pub fn to_u64(self) -> (t: u64)
        ensures
            t == spec_tag(self),
            1 <= t <= 5,
    {
        match self {
            Opcode::Load => 1,
            Opcode::Store => 2,
            Opcode::Move => 3,
            Opcode::Add => 4,
            Opcode::Sub => 5,
        }
    }

    /// Case-insensitive mnemonic lookup on a whole string.
    pub fn from_string(s: &str) -> (r: Option<Opcode>)
        ensures
            r == Opcode::spec_from_mnemonic(s@),
    {
        let t = chars_of(s);
        Opcode::from_token(&t)
    }

    /// Case-insensitive mnemonic lookup on one token.
    pub fn from_token(t: &Vec<char>) -> (r: Option<Opcode>)
        ensures
            r == Opcode::spec_from_mnemonic(t@),
    {
        let load_p = vec!['l', 'o', 'a', 'd'];
        let store_p = vec!['s', 't', 'o', 'r', 'e'];
        let move_p = vec!['m', 'o', 'v', 'e'];
        let add_p = vec!['a', 'd', 'd'];
        let sub_p = vec!['s', 'u', 'b'];
        if token_matches(t, &load_p) {
            Some(Opcode::Load)
        } else if token_matches(t, &store_p) {
            Some(Opcode::Store)
        } else if token_matches(t, &move_p) {
            Some(Opcode::Move)
        } else if token_matches(t, &add_p) {
            Some(Opcode::Add)
        } else if token_matches(t, &sub_p) {
            Some(Opcode::Sub)
        } else {
            None
        }
    }
}

/// The characters of `s`, in order, as a vector.
pub fn chars_of(s: &str) -> (r: Vec<char>)
    ensures
        r@ == s@,
{
    let n = s.unicode_len();
    let mut r: Vec<char> = Vec::new();
    let mut i: usize = 0;
    while i < n
        invariant
            n == s@.len(),
            i <= n,
            r@ == s@.take(i as int),
        decreases n - i,
    {
        let c = s.get_char(i);
        r.push(c);
        assert(r@ =~= s@.take(i + 1));
        i += 1;
    }
    assert(r@ =~= s@);
    r
}

/// Does `t` spell the lower-case word `p`, ignoring ASCII case?
fn token_matches(t: &Vec<char>, p: &Vec<char>) -> (r: bool)
    ensures
        r == token_eq_ci(t@, p@),
{
    if t.len() != p.len() {
        return false;
    }
    let mut i: usize = 0;
    while i < t.len()
        invariant
            i <= t@.len(),
            t@.len() == p@.len(),
            forall|j: int| 0 <= j < i ==> char_eq_ci(t@[j], p@[j]),
        decreases t@.len() - i,
    {
        let a = t[i];
        let l = p[i];
        let ok = a == l || ('A' as u32 <= a as u32 && a as u32 <= 'Z' as u32 && a as u32 + 32
            == l as u32);
        if !ok {
            assert(!char_eq_ci(t@[i as int], p@[i as int]));
            return false;
        }
        assert(char_eq_ci(t@[i as int], p@[i as int]));
        i += 1;
    }
    true
}

} // verus!
