//! The STP bridge: runs a proof path against a symbol table and measures its
//! logical violation as an energy.
use vstd::prelude::*;
use vstd::string::StrSliceExecFns;
use crate::dsl::schema::{LogicType, LogicValue, ProofAction};

verus! {

/// Energy of an empty path.
pub const EMPTY_PATH_ENERGY: u64 = 1000;
/// Energy of one violating action: a reference to an undefined symbol, a
/// contradicted assertion, or an assertion whose claim is neither `Odd` nor
/// `Even`.  A path's energy counts its violating actions.
pub const VIOLATION_ENERGY: u64 = 1;

/// `needle` occurs in `hay` as a contiguous run of characters.
pub open spec fn contains_text(hay: Seq<char>, needle: Seq<char>) -> bool {
    exists|i: int| 0 <= i && i + needle.len() <= hay.len() && #[trigger] hay.subrange(i, i + needle.len()) == needle
}

/// Whether `needle` occurs in `hay`.
pub fn str_contains(hay: &str, needle: &str) -> (r: bool)
    ensures
        r == contains_text(hay@, needle@),
{
    let h = hay.unicode_len();
    let n = needle.unicode_len();
    if n > h {
        proof {
            assert forall|i: int| 0 <= i && i + needle@.len() <= hay@.len() implies
                #[trigger] hay@.subrange(i, i + needle@.len()) != needle@ by {}
        }
        return false;
    }
    let mut i: usize = 0;
    while i <= h - n
        invariant
            h == hay@.len(),
            n == needle@.len(),
            n <= h,
            i <= h - n + 1,
            forall|k: int| 0 <= k < i ==> #[trigger] hay@.subrange(k, k + n) != needle@,
        decreases h - i,
    {
        let mut j: usize = 0;
        let mut matched = true;
        while j < n
            invariant
                h == hay@.len(),
                n == needle@.len(),
                i + n <= h,
                j <= n,
                matched == (forall|t: int| 0 <= t < j ==> hay@[i + t] == needle@[t]),
            decreases n - j,
        {
            if hay.get_char(i + j) != needle.get_char(j) {
                matched = false;
            }
            j = j + 1;
        }
        if matched {
            assert(hay@.subrange(i as int, i + n) =~= needle@);
            return true;
        }
        assert(hay@.subrange(i as int, i + n) != needle@) by {
            let t = choose|t: int| 0 <= t < n && hay@[i + t] != needle@[t];
            assert(hay@.subrange(i as int, i + n)[t] == hay@[i + t]);
        }
        i = i + 1;
    }
    false
}

/// Whether two strings hold the same characters.
pub fn str_equals(a: &str, b: &str) -> (r: bool)
    ensures
        r == (a@ == b@),
{
    let n = a.unicode_len();
    if n != b.unicode_len() {
        return false;
    }
    let mut i: usize = 0;
    while i < n
        invariant
            n == a@.len(),
            n == b@.len(),
            i <= n,
            forall|t: int| 0 <= t < i ==> a@[t] == b@[t],
        decreases n - i,
    {
        if a.get_char(i) != b.get_char(i) {
            return false;
        }
        i = i + 1;
    }
    assert(a@ =~= b@);
    true
}

/// What a bound value shows of itself: its parity vector, or `None` for a scalar.
pub open spec fn value_view(v: LogicValue) -> Option<Seq<u8>> {
    match v {
        LogicValue::Vector(x) => Some(x@),
        LogicValue::Scalar(_) => None,
    }
}

/// The vector that a definition of type `t` binds: `[1, 0]` for even,
/// `[0, 1]` for odd, and a scalar otherwise.
pub open spec fn type_vector(t: LogicType) -> Option<Seq<u8>> {
    match t {
        LogicType::Even => Some(seq![1u8, 0u8]),
        LogicType::Odd => Some(seq![0u8, 1u8]),
        LogicType::Integer => None,
    }
}

/// The symbol table as a sequence of bindings; a later binding hides an
/// earlier one of the same name.
pub type Table = Seq<(Seq<char>, Option<Seq<u8>>)>;

/// The binding of `key`, the latest first.
pub open spec fn lookup(table: Table, key: Seq<char>) -> Option<Option<Seq<u8>>>
    decreases table.len(),
{
    if table.len() == 0 {
        None
    } else if table.last().0 == key {
        Some(table.last().1)
    } else {
        lookup(table.drop_last(), key)
    }
}

/// The parity vector bound to `key`, if its value is a vector.
pub open spec fn vector_of(table: Table, key: Seq<char>) -> Option<Seq<u8>> {
    match lookup(table, key) {
        Some(Some(v)) => Some(v),
        _ => None,
    }
}

/// A parity vector says "odd" when its second entry exceeds one half.
pub open spec fn says_odd(v: Seq<u8>) -> bool {
    v.len() > 1 && v[1] >= 1
}

/// The energy that an assertion adds under a symbol table.
pub open spec fn assertion_energy(table: Table, condition: Seq<char>) -> nat {
    if contains_text(condition, seq!['n', ' ', '+', ' ', 'm']) || contains_text(condition, seq!['s', 'u', 'm']) {
        match (vector_of(table, seq!['n']), vector_of(table, seq!['m'])) {
            (Some(n), Some(m)) => {
                let sum_is_odd = says_odd(n) != says_odd(m);
                if contains_text(condition, seq!['O', 'd', 'd']) {
                    if !sum_is_odd { VIOLATION_ENERGY as nat } else { 0 }
                } else if contains_text(condition, seq!['E', 'v', 'e', 'n']) {
                    if sum_is_odd { VIOLATION_ENERGY as nat } else { 0 }
                } else {
                    VIOLATION_ENERGY as nat
                }
            },
            _ => 0,
        }
    } else {
        0
    }
}

/// One action applied to a table and an energy.
pub open spec fn apply_action(table: Table, energy: nat, action: ProofAction) -> (Table, nat) {
    match action {
        ProofAction::Define { symbol, value_type } => (table.push((symbol@, type_vector(value_type))), energy),
        ProofAction::Transform { target, .. } => (
            table,
            if lookup(table, target@) is Some { energy } else { energy + (VIOLATION_ENERGY as nat) },
        ),
        ProofAction::Assert { condition } => (table, energy + assertion_energy(table, condition@)),
        ProofAction::NoOp => (table, energy),
    }
}

/// The table and energy after a path, from an empty table and zero energy.
pub open spec fn run_actions(actions: Seq<ProofAction>) -> (Table, nat)
    decreases actions.len(),
{
    if actions.len() == 0 {
        (Seq::empty(), 0)
    } else {
        let prev = run_actions(actions.drop_last());
        apply_action(prev.0, prev.1, actions.last())
    }
}

/// The energy of a path: 1000 for an empty path, the accumulated violations otherwise.
pub open spec fn path_energy(actions: Seq<ProofAction>) -> nat {
    if actions.len() == 0 { EMPTY_PATH_ENERGY as nat } else { run_actions(actions).1 }
}

/// The parity (0 even, 1 odd) that a definition of type `t` gives a symbol.
pub open spec fn type_parity(t: LogicType) -> int {
    match t {
        LogicType::Odd => 1,
        _ => 0,
    }
}

/// Odd plus odd is even, even plus even is even, odd plus even is odd: on the
/// path "define n, define m, assert something of n + m", the assertion costs
/// nothing exactly when the parity it claims is the parity of
/// `parity(n) + parity(m)`, and one violation otherwise; a claim naming
/// neither parity is one violation.
pub proof fn lemma_parity_of_sum(a1: ProofAction, a2: ProofAction, a3: ProofAction)
    requires
        a1 matches ProofAction::Define { symbol, value_type }
            && symbol@ == seq!['n'] && value_type != LogicType::Integer,
        a2 matches ProofAction::Define { symbol, value_type }
            && symbol@ == seq!['m'] && value_type != LogicType::Integer,
        a3 matches ProofAction::Assert { condition }
            && contains_text(condition@, seq!['n', ' ', '+', ' ', 'm']),
    ensures
        ({
            let cond = a3->condition@;
            let sum_odd = (type_parity(a1->value_type) + type_parity(a2->value_type)) % 2 == 1;
            let e = path_energy(seq![a1, a2, a3]);
            &&& contains_text(cond, seq!['O', 'd', 'd']) ==> e == (if sum_odd { 0int } else { 1int })
            &&& !contains_text(cond, seq!['O', 'd', 'd']) && contains_text(cond, seq!['E', 'v', 'e', 'n'])
                ==> e == (if sum_odd { 1int } else { 0int })
            &&& !contains_text(cond, seq!['O', 'd', 'd']) && !contains_text(cond, seq!['E', 'v', 'e', 'n']) ==> e == 1
        }),
{
    let path = seq![a1, a2, a3];
    assert(path.drop_last() =~= seq![a1, a2]);
    assert(seq![a1, a2].drop_last() =~= seq![a1]);
    assert(seq![a1].drop_last() =~= Seq::<ProofAction>::empty());
    let t0 = run_actions(Seq::<ProofAction>::empty()).0;
    let t1 = run_actions(seq![a1]).0;
    let t2 = run_actions(seq![a1, a2]).0;
    assert(t1 == t0.push((seq!['n'], type_vector(a1->value_type))));
    assert(t2 == t1.push((seq!['m'], type_vector(a2->value_type))));
    assert(seq!['m'] != seq!['n']) by {
        assert(seq!['m'][0] != seq!['n'][0]);
    }
    assert(t2.drop_last() =~= t1);
    assert(t1.drop_last() =~= t0);
    assert(vector_of(t2, seq!['n']) == type_vector(a1->value_type));
    assert(vector_of(t2, seq!['m']) == type_vector(a2->value_type));
    assert(run_actions(path).1 == run_actions(seq![a1, a2]).1 + assertion_energy(t2, a3->condition@));
    assert(run_actions(seq![a1, a2]).1 == 0);
}

pub open spec fn table_of(t: Seq<(String, LogicValue)>) -> Table {
    t.map_values(|p: (String, LogicValue)| (p.0@, value_view(p.1)))
}

fn text(s: &str) -> (r: String)
    ensures
        r@ == s@,
{
    let mut r = String::new();
    r.append(s);
    r
}

/// The STP context: the symbol table and the violation energy accumulated.
pub struct STPContext {
    symbol_table: Vec<(String, LogicValue)>,
    energy: u64,
}

impl STPContext {
    pub closed spec fn table(&self) -> Table {
        table_of(self.symbol_table@)
    }

    pub closed spec fn energy(&self) -> nat {
        self.energy as nat
    }

    /// An empty context with zero energy.
    pub fn new() -> (r: Self)
        ensures
            r.table() == Seq::<(Seq<char>, Option<Seq<u8>>)>::empty(),
            r.energy() == 0,
    {
        let r = Self { symbol_table: Vec::new(), energy: 0 };
        assert(r.table() =~= Seq::<(Seq<char>, Option<Seq<u8>>)>::empty());
        r
    }

    /// Runs a path from an empty table and returns its energy.
    pub fn calculate_energy(&mut self, actions: &[ProofAction]) -> (r: u64)
        ensures
            r == path_energy(actions@),
            actions@.len() == 0 ==> final(self).table() == Seq::<(Seq<char>, Option<Seq<u8>>)>::empty()
                && final(self).energy() == 0,
            actions@.len() > 0 ==> final(self).table() == run_actions(actions@).0
                && final(self).energy() == run_actions(actions@).1,
    {
        self.energy = 0;
        self.symbol_table = Vec::new();
        assert(self.table() =~= Seq::<(Seq<char>, Option<Seq<u8>>)>::empty());
        if actions.len() == 0 {
            return EMPTY_PATH_ENERGY;
        }
        let mut i: usize = 0;
        while i < actions.len()
            invariant
                i <= actions@.len(),
                (self.table(), self.energy()) == run_actions(actions@.take(i as int)),
                self.energy() <= i,
            decreases actions@.len() - i,
        {
            let ghost before = self.table();
            assert(actions@.take(i + 1).drop_last() =~= actions@.take(i as int));
            match &actions[i] {
                ProofAction::Define { symbol, value_type } => {
                    let val = match value_type {
                        LogicType::Even => LogicValue::Vector(vec![1u8, 0u8]),
                        LogicType::Odd => LogicValue::Vector(vec![0u8, 1u8]),
                        _ => LogicValue::Scalar(0),
                    };
                    let ghost vv = value_view(val);
                    assert(vv == type_vector(*value_type));
                    self.symbol_table.push((symbol.clone(), val));
                    assert(self.table() =~= before.push((symbol@, type_vector(*value_type))));
                },
                ProofAction::Transform { target, rule: _ } => {
                    if !self.contains_key(target.as_str()) {
                        self.energy = self.energy + VIOLATION_ENERGY;
                    }
                },
                ProofAction::Assert { condition } => {
                    self.evaluate_assertion(condition.as_str());
                },
                ProofAction::NoOp => {},
            }
            i = i + 1;
        }
        assert(actions@.take(i as int) =~= actions@);
        self.energy
    }

    /// Whether a symbol is bound.
    fn contains_key(&self, key: &str) -> (r: bool)
        ensures
            r == (lookup(self.table(), key@) is Some),
    {
        let k = text(key);
        let mut i = self.symbol_table.len();
        assert(self.symbol_table@.take(i as int) =~= self.symbol_table@);
        while i > 0
            invariant
                i <= self.symbol_table@.len(),
                k@ == key@,
                lookup(self.table(), key@) == lookup(table_of(self.symbol_table@.take(i as int)), key@),
            decreases i,
        {
            let ghost t = table_of(self.symbol_table@.take(i as int));
            assert(table_of(self.symbol_table@.take(i - 1)) =~= t.drop_last());
            if self.symbol_table[i - 1].0 == k {
                return true;
            }
            i = i - 1;
        }
        assert(table_of(self.symbol_table@.take(0)) =~= Seq::<(Seq<char>, Option<Seq<u8>>)>::empty());
        false
    }

    /// The parity vector bound to a symbol, if any.
    fn get_vector(&self, symbol: &str) -> (r: Option<&Vec<u8>>)
        ensures
            r matches Some(v) ==> vector_of(self.table(), symbol@) == Some(v@),
            r is None ==> vector_of(self.table(), symbol@) is None,
    {
        let k = text(symbol);
        let mut i = self.symbol_table.len();
        assert(self.symbol_table@.take(i as int) =~= self.symbol_table@);
        while i > 0
            invariant
                i <= self.symbol_table@.len(),
                k@ == symbol@,
                lookup(self.table(), symbol@) == lookup(table_of(self.symbol_table@.take(i as int)), symbol@),
            decreases i,
        {
            let ghost t = table_of(self.symbol_table@.take(i as int));
            assert(table_of(self.symbol_table@.take(i - 1)) =~= t.drop_last());
            if self.symbol_table[i - 1].0 == k {
                return match &self.symbol_table[i - 1].1 {
                    LogicValue::Vector(v) => Some(v),
                    LogicValue::Scalar(_) => None,
                };
            }
            i = i - 1;
        }
        assert(table_of(self.symbol_table@.take(0)) =~= Seq::<(Seq<char>, Option<Seq<u8>>)>::empty());
        None
    }

    /// Scores an assertion about the parity of `n + m`: a contradiction
    /// costs 1, and so does a claim that is neither `Odd` nor `Even`.
    fn evaluate_assertion(&mut self, condition: &str)
        requires
            old(self).energy() + 1 <= u64::MAX,
        ensures
            final(self).table() == old(self).table(),
            final(self).energy() == old(self).energy() + assertion_energy(old(self).table(), condition@),
    {
        proof {
            reveal_strlit("n + m");
            reveal_strlit("sum");
            reveal_strlit("Odd");
            reveal_strlit("Even");
            reveal_strlit("n");
            reveal_strlit("m");
            assert("n + m"@ =~= seq!['n', ' ', '+', ' ', 'm']);
            assert("sum"@ =~= seq!['s', 'u', 'm']);
            assert("Odd"@ =~= seq!['O', 'd', 'd']);
            assert("Even"@ =~= seq!['E', 'v', 'e', 'n']);
            assert("n"@ =~= seq!['n']);
            assert("m"@ =~= seq!['m']);
        }
        if str_contains(condition, "n + m") || str_contains(condition, "sum") {
            let n_vec = self.get_vector("n");
            let m_vec = self.get_vector("m");
            match (n_vec, m_vec) {
                (Some(n), Some(m)) => {
                    let n_is_odd = n.len() > 1 && n[1] >= 1;
                    let m_is_odd = m.len() > 1 && m[1] >= 1;
                    let sum_is_odd = n_is_odd != m_is_odd;
                    let expected_odd = if str_contains(condition, "Odd") {
                        true
                    } else if str_contains(condition, "Even") {
                        false
                    } else {
                        self.energy = self.energy + VIOLATION_ENERGY;
                        return;
                    };
                    if sum_is_odd != expected_odd {
                        self.energy = self.energy + VIOLATION_ENERGY;
                    }
                },
                _ => {},
            }
        }
    }
}

} // verus!
