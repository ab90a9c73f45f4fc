//! Interning: names that repeat become small integer codes, with a table
//! that grows as new names come.

use crate::text::{join_with, split_bar, split_on, texts_view};
use vstd::prelude::*;

verus! {

/// What a list of names stands for.
pub open spec fn names_view(names: Seq<String>) -> Seq<Seq<char>> {
    names.map_values(|n: String| n@)
}

/// Whether `name` is in the table.
pub open spec fn has_name(names: Seq<Seq<char>>, name: Seq<char>) -> bool {
    exists|i: int| 0 <= i < names.len() && names[i] == name
}

/// Whether no name is in the table twice.
pub open spec fn distinct(names: Seq<Seq<char>>) -> bool {
    forall|i: int, j: int| 0 <= i < names.len() && 0 <= j < names.len() && i != j ==> names[i] != names[j]
}

/// The table after `name` was asked for: a new name goes to its end.
pub open spec fn interned(names: Seq<Seq<char>>, name: Seq<char>) -> Seq<Seq<char>> {
    if has_name(names, name) {
        names
    } else {
        names.push(name)
    }
}

/// The table after each of `parts` was asked for in turn.
pub open spec fn interned_all(names: Seq<Seq<char>>, parts: Seq<Seq<char>>) -> Seq<Seq<char>>
    decreases parts.len(),
{
    if parts.len() == 0 {
        names
    } else {
        interned(interned_all(names, parts.drop_last()), parts.last())
    }
}

/// The place of `name` in a table that holds it.
pub open spec fn code_of(names: Seq<Seq<char>>, name: Seq<char>) -> int {
    choose|i: int| 0 <= i < names.len() && names[i] == name
}

/// The names shared by every kind of table. No name is held twice, and the
/// first `seed` names are those the table was made with. A name is found by
/// going through the list: the verifier has no model of hashing for text.
struct Table {
    names: Vec<String>,
    seed: usize,
}

impl Table {
    spec fn view(&self) -> Seq<Seq<char>> {
        names_view(self.names@)
    }

    spec fn wf(&self) -> bool {
        &&& distinct(self@)
        &&& self.seed <= self.names@.len()
    }

    fn new() -> (r: Self)
        ensures
            r.wf(),
            r@ == Seq::<Seq<char>>::empty(),
            r.seed == 0,
    {
        let r = Table { names: Vec::new(), seed: 0 };
        assert(r@ =~= Seq::<Seq<char>>::empty());
        r
    }

    fn find(&self, name: &str) -> (r: Option<usize>)
        requires
            self.wf(),
        ensures
            match r {
                Some(i) => i < self@.len() && self@[i as int] == name@ && i == code_of(
                    self@,
                    name@,
                ),
                None => !has_name(self@, name@),
            },
    {
        let key = String::from_str(name);
        let mut i: usize = 0;
        while i < self.names.len()
            invariant
                self.wf(),
                key@ == name@,
                i <= self.names@.len(),
                forall|j: int| 0 <= j < i ==> self@[j] != name@,
            decreases self.names@.len() - i,
        {
            let same = self.names[i] == key;
            assert(same == (self@[i as int] == name@));
            if same {
                return Some(i);
            }
            i += 1;
        }
        None
    }

    fn intern(&mut self, name: &str) -> (r: usize)
        requires
            old(self).wf(),
        ensures
            final(self).wf(),
            final(self).seed == old(self).seed,
            final(self)@ == interned(old(self)@, name@),
            r < final(self)@.len(),
            final(self)@[r as int] == name@,
            r == code_of(final(self)@, name@),
            has_name(old(self)@, name@) ==> r == code_of(old(self)@, name@),
            !has_name(old(self)@, name@) ==> r == old(self)@.len(),
    {
        match self.find(name) {
            Some(i) => i,
            None => {
                let n = self.names.len();
                self.names.push(String::from_str(name));
                assert(self@ =~= old(self)@.push(name@));
                assert(self@[n as int] == name@);
                n
            },
        }
    }

    fn reset(&mut self)
        requires
            old(self).wf(),
        ensures
            final(self).wf(),
            final(self).seed == old(self).seed,
            final(self)@ == old(self)@.take(old(self).seed as int),
    {
        self.names.truncate(self.seed);
        assert(self@ =~= old(self)@.take(old(self).seed as int));
    }
}

/// A code that an [`EnumInterner`] gave to a name.
#[derive(Debug, Clone, Copy, PartialEq, Eq, Hash, Structural)]
pub struct EnumValue(pub u64);

impl EnumValue {
    pub fn value(&self) -> (r: u64)
        ensures
            r == self.0,
    {
        self.0
    }
}

/// Names with the integers that stand for them: the `i`-th name that came
/// has the code `i`. Codes that were given stay valid until `clear`.
pub struct EnumInterner {
    table: Table,
}

impl View for EnumInterner {
    type V = Seq<Seq<char>>;

    /// The names, each at the place of its code.
    closed spec fn view(&self) -> Seq<Seq<char>> {
        self.table@
    }
}

impl EnumInterner {
    /// No name is held twice.
    pub closed spec fn wf(&self) -> bool {
        self.table.wf()
    }

    /// The names that the table was made with, which `clear` goes back to.
    pub closed spec fn seed(&self) -> Seq<Seq<char>> {
        self@.take(self.table.seed as int)
    }

    pub proof fn lemma_distinct(&self)
        requires
            self.wf(),
        ensures
            distinct(self@),
            self.seed() == self@.take(self.seed().len() as int),
            self.seed().len() <= self@.len(),
    {
    }

    /// A table of the seed names, in their order; a name that comes twice
    /// keeps its first code.
    pub fn new(seed: &Vec<String>) -> (r: Self)
        ensures
            r.wf(),
            r@ == interned_all(Seq::<Seq<char>>::empty(), names_view(seed@)),
            r.seed() == r@,
    {
        let mut table = Table::new();
        let ghost all = names_view(seed@);
        let mut i: usize = 0;
        while i < seed.len()
            invariant
                table.wf(),
                all == names_view(seed@),
                i <= seed@.len(),
                table@ == interned_all(Seq::<Seq<char>>::empty(), all.take(i as int)),
            decreases seed@.len() - i,
        {
            proof {
                assert(all.take(i + 1).drop_last() =~= all.take(i as int));
                assert(all.take(i + 1).last() == seed@[i as int]@);
            }
            table.intern(seed[i].as_str());
            i += 1;
        }
        proof {
            assert(all.take(i as int) =~= all);
        }
        table.seed = table.names.len();
        let r = EnumInterner { table };
        assert(r.seed() =~= r@);
        r
    }

    /// How many names are held.
    pub fn len(&self) -> (r: u64)
        ensures
            r == self@.len(),
    {
        self.table.names.len() as u64
    }

    /// Goes back to the names that the table was made with.
    pub fn clear(&mut self)
        requires
            old(self).wf(),
        ensures
            final(self).wf(),
            final(self)@ == old(self).seed(),
            final(self).seed() == old(self).seed(),
    {
        self.table.reset();
        assert(self.seed() =~= old(self).seed());
    }

    /// The code of a name that is held.
    pub fn try_get(&self, s: &str) -> (r: Option<EnumValue>)
        requires
            self.wf(),
        ensures
            match r {
                Some(v) => has_name(self@, s@) && v.0 == code_of(self@, s@) && self@[v.0 as int]
                    == s@,
                None => !has_name(self@, s@),
            },
    {
        match self.table.find(s) {
            Some(i) => Some(EnumValue(i as u64)),
            None => None,
        }
    }

    /// The code of a name; a name that is not held gets the next code.
    pub fn get(&mut self, s: &str) -> (r: EnumValue)
        requires
            old(self).wf(),
        ensures
            final(self).wf(),
            final(self).seed() == old(self).seed(),
            final(self)@ == interned(old(self)@, s@),
            r.0 < final(self)@.len(),
            final(self)@[r.0 as int] == s@,
            r.0 == if has_name(old(self)@, s@) {
                code_of(old(self)@, s@)
            } else {
                old(self)@.len() as int
            },
    {
        let i = self.table.intern(s);
        assert(self.seed() =~= old(self).seed());
        EnumValue(i as u64)
    }

    /// The name that a code stands for, where this table gave the code.
    pub fn name_of(&self, value: EnumValue) -> (r: Option<&str>)
        ensures
            match r {
                Some(name) => value.0 < self@.len() && name@ == self@[value.0 as int],
                None => value.0 >= self@.len(),
            },
    {
        if value.0 < self.len() {
            Some(self.as_str(value))
        } else {
            None
        }
    }

    /// The name that a code stands for. Only a code that this table gave
    /// has one.
    pub fn as_str(&self, value: EnumValue) -> (r: &str)
        requires
            value.0 < self@.len(),
        ensures
            r@ == self@[value.0 as int],
    {
        let n = self.table.names.len();
        assert(self@.len() == n);
        let i = value.0 as usize;
        assert(self@[i as int] == self.table.names@[i as int]@);
        self.table.names[i].as_str()
    }
}

/// Whether bit `i` of `x` is set.
pub open spec fn bit_set(x: u64, i: u64) -> bool {
    (x >> i) & 1 == 1
}

/// The flags of the named bits: the union of `1 << code` over `parts`.
pub open spec fn flags_of(names: Seq<Seq<char>>, parts: Seq<Seq<char>>) -> u64
    decreases parts.len(),
{
    if parts.len() == 0 {
        0
    } else {
        flags_of(names, parts.drop_last()) | (1u64 << (code_of(names, parts.last()) as u64))
    }
}

/// Whether every part is a name of the table.
pub open spec fn all_known(names: Seq<Seq<char>>, parts: Seq<Seq<char>>) -> bool {
    forall|i: int| 0 <= i < parts.len() ==> has_name(names, #[trigger] parts[i])
}

/// The names of the bits of `x` below `k` that are set, lowest bit first.
pub open spec fn selected(names: Seq<Seq<char>>, x: u64, k: nat) -> Seq<Seq<char>>
    decreases k,
{
    if k == 0 {
        Seq::empty()
    } else {
        let rest = selected(names, x, (k - 1) as nat);
        if bit_set(x, (k - 1) as u64) {
            rest.push(names[k - 1])
        } else {
            rest
        }
    }
}

/// Whether no bit is set in `x` but those that stand for names of the
/// table.
pub open spec fn issued(names: Seq<Seq<char>>, x: u64) -> bool {
    names.len() >= 64 || x >> (names.len() as u64) == 0
}

/// Every bit that is set in flags of a table stands for one of its names.
pub proof fn lemma_issued_bits(names: Seq<Seq<char>>, x: u64, i: u64)
    requires
        issued(names, x),
        i < 64,
        bit_set(x, i),
    ensures
        i < names.len(),
{
    if names.len() < 64 {
        let n = names.len() as u64;
        assert(x >> n == 0 && n <= i && i < 64 ==> (x >> i) & 1 == 0) by (bit_vector);
    }
}

/// A set of flags of a [`FlagInterner`]. Zero is the empty set, `None`.
#[derive(Debug, Clone, Copy, PartialEq, Eq, Hash, Structural)]
pub struct FlagValue(pub u64);

impl FlagValue {
    /// The empty set.
    pub fn none() -> (r: Self)
        ensures
            r.0 == 0,
    {
        FlagValue(0)
    }

    pub fn value(&self) -> (r: u64)
        ensures
            r == self.0,
    {
        self.0
    }

    /// Whether every flag of `other` is set.
    pub fn contains(&self, other: Self) -> (r: bool)
        ensures
            r == (self.0 & other.0 == other.0),
    {
        self.0 & other.0 == other.0
    }

    /// Whether some flag of `other` is set.
    pub fn intersects(&self, other: Self) -> (r: bool)
        ensures
            r == (self.0 & other.0 > 0),
    {
        self.0 & other.0 > 0
    }

    /// The flags that are set here and not in `rhs`.
    pub fn difference(self, rhs: Self) -> (r: Self)
        ensures
            r.0 == self.0 - (self.0 & rhs.0),
            r.0 == self.0 & !rhs.0,
    {
        let common = self.0 & rhs.0;
        let a = self.0;
        let b = rhs.0;
        assert(a & b <= a) by (bit_vector);
        assert(a - (a & b) == a & !b) by (bit_vector);
        FlagValue(self.0 - common)
    }

    /// The flags that are set in one of the two.
    pub fn union(self, rhs: Self) -> (r: Self)
        ensures
            r.0 == self.0 | rhs.0,
    {
        FlagValue(self.0 | rhs.0)
    }

    /// The flags that are set in both.
    pub fn intersection(self, rhs: Self) -> (r: Self)
        ensures
            r.0 == self.0 & rhs.0,
    {
        FlagValue(self.0 & rhs.0)
    }

    /// The flags that are set in exactly one of the two.
    pub fn symmetric_difference(self, rhs: Self) -> (r: Self)
        ensures
            r.0 == self.0 ^ rhs.0,
    {
        FlagValue(self.0 ^ rhs.0)
    }

    pub fn difference_assign(&mut self, rhs: Self)
        ensures
            final(self).0 == old(self).0 & !rhs.0,
    {
        *self = self.difference(rhs);
    }

    pub fn union_assign(&mut self, rhs: Self)
        ensures
            final(self).0 == old(self).0 | rhs.0,
    {
        self.0 = self.0 | rhs.0;
    }

    pub fn intersection_assign(&mut self, rhs: Self)
        ensures
            final(self).0 == old(self).0 & rhs.0,
    {
        self.0 = self.0 & rhs.0;
    }

    pub fn symmetric_difference_assign(&mut self, rhs: Self)
        ensures
            final(self).0 == old(self).0 ^ rhs.0,
    {
        self.0 = self.0 ^ rhs.0;
    }
}

impl std::ops::BitOr for FlagValue {
    type Output = FlagValue;

    fn bitor(self, rhs: FlagValue) -> (r: FlagValue) {
        FlagValue(self.0 | rhs.0)
    }
}

impl vstd::std_specs::ops::BitOrSpecImpl for FlagValue {
    open spec fn obeys_bitor_spec() -> bool {
        true
    }

    open spec fn bitor_req(self, rhs: FlagValue) -> bool {
        true
    }

    open spec fn bitor_spec(self, rhs: FlagValue) -> FlagValue {
        FlagValue(self.0 | rhs.0)
    }
}

impl std::ops::BitAnd for FlagValue {
    type Output = FlagValue;

    fn bitand(self, rhs: FlagValue) -> (r: FlagValue) {
        FlagValue(self.0 & rhs.0)
    }
}

impl vstd::std_specs::ops::BitAndSpecImpl for FlagValue {
    open spec fn obeys_bitand_spec() -> bool {
        true
    }

    open spec fn bitand_req(self, rhs: FlagValue) -> bool {
        true
    }

    open spec fn bitand_spec(self, rhs: FlagValue) -> FlagValue {
        FlagValue(self.0 & rhs.0)
    }
}

impl std::ops::BitXor for FlagValue {
    type Output = FlagValue;

    fn bitxor(self, rhs: FlagValue) -> (r: FlagValue) {
        FlagValue(self.0 ^ rhs.0)
    }
}

impl vstd::std_specs::ops::BitXorSpecImpl for FlagValue {
    open spec fn obeys_bitxor_spec() -> bool {
        true
    }

    open spec fn bitxor_req(self, rhs: FlagValue) -> bool {
        true
    }

    open spec fn bitxor_spec(self, rhs: FlagValue) -> FlagValue {
        FlagValue(self.0 ^ rhs.0)
    }
}

impl std::ops::Sub for FlagValue {
    type Output = FlagValue;

    fn sub(self, rhs: FlagValue) -> (r: FlagValue) {
        self.difference(rhs)
    }
}

impl vstd::std_specs::ops::SubSpecImpl for FlagValue {
    open spec fn obeys_sub_spec() -> bool {
        true
    }

    open spec fn sub_req(self, rhs: FlagValue) -> bool {
        true
    }

    open spec fn sub_spec(self, rhs: FlagValue) -> FlagValue {
        FlagValue(self.0 & !rhs.0)
    }
}

/// A name that a table holds keeps its code when the table grows.
pub proof fn lemma_code_is_stable(names: Seq<Seq<char>>, more: Seq<Seq<char>>, name: Seq<char>)
    requires
        distinct(more),
        names.len() <= more.len(),
        more.take(names.len() as int) == names,
        has_name(names, name),
    ensures
        has_name(more, name),
        code_of(more, name) == code_of(names, name),
{
    let i = code_of(names, name);
    assert(more.take(names.len() as int)[i] == more[i]);
    assert(more[i] == name);
}

/// Asking for a name keeps the table's names at their places.
pub proof fn lemma_interned_extends(names: Seq<Seq<char>>, name: Seq<char>)
    requires
        distinct(names),
    ensures
        distinct(interned(names, name)),
        names.len() <= interned(names, name).len() <= names.len() + 1,
        interned(names, name).take(names.len() as int) == names,
        has_name(interned(names, name), name),
{
    let out = interned(names, name);
    if has_name(names, name) {
        assert(out.take(names.len() as int) =~= names);
    } else {
        assert(out.take(names.len() as int) =~= names);
        assert(out[names.len() as int] == name);
        assert forall|i: int, j: int|
            0 <= i < out.len() && 0 <= j < out.len() && i != j implies out[i] != out[j] by {
            if i < names.len() && j < names.len() {
            } else if i < names.len() {
                assert(names[i] == out[i]);
            } else {
                assert(names[j] == out[j]);
            }
        }
    }
}

/// Asking for names in turn keeps the table's names at their places, and
/// holds every name that was asked for.
pub proof fn lemma_interned_all_extends(names: Seq<Seq<char>>, parts: Seq<Seq<char>>)
    requires
        distinct(names),
    ensures
        distinct(interned_all(names, parts)),
        names.len() <= interned_all(names, parts).len(),
        interned_all(names, parts).take(names.len() as int) == names,
        all_known(interned_all(names, parts), parts),
    decreases parts.len(),
{
    if parts.len() == 0 {
        assert(names.take(names.len() as int) =~= names);
    } else {
        let init = parts.drop_last();
        lemma_interned_all_extends(names, init);
        let mid = interned_all(names, init);
        lemma_interned_extends(mid, parts.last());
        let out = interned_all(names, parts);
        assert(out.take(names.len() as int) =~= mid.take(names.len() as int)) by {
            assert(out.take(mid.len() as int) == mid);
            assert forall|i: int| 0 <= i < names.len() implies out[i] == mid[i] by {
                assert(out.take(mid.len() as int)[i] == out[i]);
            }
        }
        assert forall|i: int| 0 <= i < parts.len() implies has_name(out, #[trigger] parts[i]) by {
            if i < init.len() {
                assert(init[i] == parts[i]);
                assert(has_name(mid, init[i]));
                lemma_code_is_stable(mid, out, parts[i]);
            }
        }
    }
}

/// Asking for the first parts takes no more room than asking for all.
pub proof fn lemma_interned_all_prefix(names: Seq<Seq<char>>, parts: Seq<Seq<char>>, n: int)
    requires
        distinct(names),
        0 <= n <= parts.len(),
    ensures
        interned_all(names, parts.take(n)).len() <= interned_all(names, parts).len(),
    decreases parts.len() - n,
{
    if n == parts.len() {
        assert(parts.take(n) =~= parts);
    } else {
        lemma_interned_all_prefix(names, parts, n + 1);
        assert(parts.take(n + 1).drop_last() =~= parts.take(n));
        lemma_interned_all_extends(names, parts.take(n));
        lemma_interned_extends(interned_all(names, parts.take(n)), parts.take(n + 1).last());
    }
}

/// The flags of names that a table holds stay the same when it grows.
pub proof fn lemma_flags_are_stable(
    names: Seq<Seq<char>>,
    more: Seq<Seq<char>>,
    parts: Seq<Seq<char>>,
)
    requires
        distinct(more),
        names.len() <= more.len(),
        more.take(names.len() as int) == names,
        all_known(names, parts),
    ensures
        flags_of(more, parts) == flags_of(names, parts),
    decreases parts.len(),
{
    if parts.len() > 0 {
        let init = parts.drop_last();
        assert forall|i: int| 0 <= i < init.len() implies has_name(names, #[trigger] init[i]) by {
            assert(init[i] == parts[i]);
        }
        lemma_flags_are_stable(names, more, init);
        assert(has_name(names, parts[parts.len() - 1]));
        lemma_code_is_stable(names, more, parts.last());
    }
}

/// Names with the bits that stand for them: the `i`-th name that came has
/// the flag `1 << i`. There is room for 64 names.
pub struct FlagInterner {
    table: Table,
}

impl View for FlagInterner {
    type V = Seq<Seq<char>>;

    /// The names, each at the place of its bit.
    closed spec fn view(&self) -> Seq<Seq<char>> {
        self.table@
    }
}

impl FlagInterner {
    /// No name is held twice, and each has a bit.
    pub closed spec fn wf(&self) -> bool {
        self.table.wf() && self.table@.len() <= 64
    }

    /// The names that the table was made with, which `clear` goes back to.
    pub closed spec fn seed(&self) -> Seq<Seq<char>> {
        self@.take(self.table.seed as int)
    }

    pub proof fn lemma_distinct(&self)
        requires
            self.wf(),
        ensures
            distinct(self@),
            self@.len() <= 64,
            self.seed() == self@.take(self.seed().len() as int),
            self.seed().len() <= self@.len(),
    {
    }

    /// A table of the seed names, in their order; a name that comes twice
    /// keeps its first bit. `None` where the names need more than 64 bits.
    pub fn new(seed: &Vec<String>) -> (r: Option<Self>)
        ensures
            match r {
                Some(t) => {
                    &&& t.wf()
                    &&& t@ == interned_all(Seq::<Seq<char>>::empty(), texts_view(seed@))
                    &&& t.seed() == t@
                },
                None => interned_all(Seq::<Seq<char>>::empty(), texts_view(seed@)).len() > 64,
            },
    {
        let mut table = Table::new();
        let ghost all = texts_view(seed@);
        let ghost empty = Seq::<Seq<char>>::empty();
        let mut i: usize = 0;
        while i < seed.len()
            invariant
                table.wf(),
                table@.len() <= 64,
                all == texts_view(seed@),
                empty == Seq::<Seq<char>>::empty(),
                i <= seed@.len(),
                table@ == interned_all(empty, all.take(i as int)),
            decreases seed@.len() - i,
        {
            proof {
                assert(all.take(i + 1).drop_last() =~= all.take(i as int));
                assert(all.take(i + 1).last() == seed@[i as int]@);
            }
            table.intern(seed[i].as_str());
            if table.names.len() > 64 {
                proof {
                    lemma_interned_all_prefix(empty, all, i + 1);
                }
                return None;
            }
            i += 1;
        }
        proof {
            assert(all.take(i as int) =~= all);
        }
        table.seed = table.names.len();
        let r = FlagInterner { table };
        assert(r.seed() =~= r@);
        Some(r)
    }

    /// How many names are held.
    pub fn len(&self) -> (r: u64)
        ensures
            r == self@.len(),
    {
        self.table.names.len() as u64
    }

    /// Goes back to the names that the table was made with.
    pub fn clear(&mut self)
        requires
            old(self).wf(),
        ensures
            final(self).wf(),
            final(self)@ == old(self).seed(),
            final(self).seed() == old(self).seed(),
    {
        self.table.reset();
        assert(self.seed() =~= old(self).seed());
    }

    /// The flag of one name that is held.
    pub fn try_get_single(&self, s: &str) -> (r: Option<FlagValue>)
        requires
            self.wf(),
        ensures
            match r {
                Some(v) => has_name(self@, s@) && v.0 == 1u64 << (code_of(self@, s@) as u64),
                None => !has_name(self@, s@),
            },
    {
        match self.table.find(s) {
            Some(i) => Some(FlagValue(1u64 << (i as u64))),
            None => None,
        }
    }

    /// The flag of one name; a name that is not held gets the next bit.
    /// There must be a bit left for it.
    pub fn get_single(&mut self, s: &str) -> (r: FlagValue)
        requires
            old(self).wf(),
            interned(old(self)@, s@).len() <= 64,
        ensures
            final(self).wf(),
            final(self).seed() == old(self).seed(),
            final(self)@ == interned(old(self)@, s@),
            r.0 == 1u64 << (code_of(final(self)@, s@) as u64),
            code_of(final(self)@, s@) == if has_name(old(self)@, s@) {
                code_of(old(self)@, s@)
            } else {
                old(self)@.len() as int
            },
    {
        let i = self.table.intern(s);
        assert(self.seed() =~= old(self).seed());
        FlagValue(1u64 << (i as u64))
    }

    /// The flags of the names that `s` holds, with `|` between them; a name
    /// that is not held gets the next bit. There must be bits left for them.
    pub fn get(&mut self, s: &str) -> (r: FlagValue)
        requires
            old(self).wf(),
            interned_all(old(self)@, split_on(s@, '|')).len() <= 64,
        ensures
            final(self).wf(),
            final(self).seed() == old(self).seed(),
            final(self)@ == interned_all(old(self)@, split_on(s@, '|')),
            r.0 == flags_of(final(self)@, split_on(s@, '|')),
    {
        let parts = split_bar(s);
        let ghost all = split_on(s@, '|');
        let ghost start = self@;
        let mut acc: u64 = 0;
        let mut i: usize = 0;
        while i < parts.len()
            invariant
                self.wf(),
                self.seed() == old(self).seed(),
                start == old(self)@,
                distinct(start),
                all == texts_view(parts@),
                interned_all(start, all).len() <= 64,
                i <= parts@.len(),
                self@ == interned_all(start, all.take(i as int)),
                all_known(self@, all.take(i as int)),
                acc == flags_of(self@, all.take(i as int)),
            decreases parts@.len() - i,
        {
            let ghost before = self@;
            proof {
                assert(all.take(i + 1).drop_last() =~= all.take(i as int));
                assert(all.take(i + 1).last() == parts@[i as int]@);
                lemma_interned_all_prefix(start, all, i + 1);
                lemma_interned_extends(before, parts@[i as int]@);
            }
            let flag = self.get_single(parts[i].as_str());
            proof {
                lemma_flags_are_stable(before, self@, all.take(i as int));
                lemma_interned_all_extends(start, all.take(i + 1));
            }
            acc = acc | flag.0;
            i += 1;
        }
        proof {
            assert(all.take(i as int) =~= all);
        }
        FlagValue(acc)
    }

    /// The flag of one name; a name that is not held gets the next bit.
    /// `None`, and no change, where no bit is left for it.
    pub fn checked_get_single(&mut self, s: &str) -> (r: Option<FlagValue>)
        requires
            old(self).wf(),
        ensures
            final(self).wf(),
            final(self).seed() == old(self).seed(),
            match r {
                Some(v) => {
                    &&& interned(old(self)@, s@).len() <= 64
                    &&& final(self)@ == interned(old(self)@, s@)
                    &&& v.0 == 1u64 << (code_of(final(self)@, s@) as u64)
                },
                None => interned(old(self)@, s@).len() > 64 && final(self)@ == old(self)@,
            },
    {
        if self.table.find(s).is_none() && self.table.names.len() >= 64 {
            return None;
        }
        Some(self.get_single(s))
    }

    /// The flags of the names that `s` holds, with `|` between them; a name
    /// that is not held gets the next bit. `None`, and no change, where the
    /// bits do not suffice.
    pub fn checked_get(&mut self, s: &str) -> (r: Option<FlagValue>)
        requires
            old(self).wf(),
        ensures
            final(self).wf(),
            final(self).seed() == old(self).seed(),
            match r {
                Some(v) => {
                    &&& interned_all(old(self)@, split_on(s@, '|')).len() <= 64
                    &&& final(self)@ == interned_all(old(self)@, split_on(s@, '|'))
                    &&& v.0 == flags_of(final(self)@, split_on(s@, '|'))
                },
                None => interned_all(old(self)@, split_on(s@, '|')).len() > 64 && final(self)@
                    == old(self)@,
            },
    {
        let parts = split_bar(s);
        let ghost all = split_on(s@, '|');
        let ghost start = self@;
        let held = self.table.names.len();
        let mut acc: u64 = 0;
        let mut i: usize = 0;
        while i < parts.len()
            invariant
                self.wf(),
                old(self).wf(),
                self.seed() == old(self).seed(),
                start == old(self)@,
                distinct(start),
                held == start.len(),
                all == texts_view(parts@),
                all == split_on(s@, '|'),
                i <= parts@.len(),
                self@ == interned_all(start, all.take(i as int)),
                all_known(self@, all.take(i as int)),
                acc == flags_of(self@, all.take(i as int)),
            decreases parts@.len() - i,
        {
            let ghost before = self@;
            proof {
                assert(all.take(i + 1).drop_last() =~= all.take(i as int));
                assert(all.take(i + 1).last() == parts@[i as int]@);
                lemma_interned_all_prefix(start, all, i + 1);
                lemma_interned_all_extends(start, all.take(i as int));
                lemma_interned_extends(before, parts@[i as int]@);
            }
            match self.checked_get_single(parts[i].as_str()) {
                Some(flag) => {
                    proof {
                        lemma_flags_are_stable(before, self@, all.take(i as int));
                        lemma_interned_all_extends(start, all.take(i + 1));
                    }
                    acc = acc | flag.0;
                },
                None => {
                    proof {
                        assert(self.seed().len() == self.table.seed);
                        assert(old(self).seed().len() == old(self).table.seed);
                    }
                    self.table.names.truncate(held);
                    proof {
                        assert(self@ =~= before.take(held as int));
                        assert(before.take(held as int) == start);
                        assert(self.seed() =~= old(self).seed());
                    }
                    return None;
                },
            }
            i += 1;
        }
        proof {
            assert(all.take(i as int) =~= all);
        }
        Some(FlagValue(acc))
    }

    /// The names of the flags that are set, where this table gave them all.
    pub fn names_of(&self, value: FlagValue) -> (r: Option<String>)
        requires
            self.wf(),
        ensures
            match r {
                Some(text) => issued(self@, value.0) && text@ == if value.0 == 0 {
                    "None"@
                } else {
                    join_with(selected(self@, value.0, 64), '|')
                },
                None => !issued(self@, value.0),
            },
    {
        let held = self.table.names.len();
        if held < 64 && value.0 >> (held as u64) != 0 {
            return None;
        }
        Some(self.as_str(value))
    }

    /// The flags of the names that `s` holds, with `|` between them, where
    /// all of them are held.
    pub fn try_get(&self, s: &str) -> (r: Option<FlagValue>)
        requires
            self.wf(),
        ensures
            match r {
                Some(v) => all_known(self@, split_on(s@, '|')) && v.0 == flags_of(
                    self@,
                    split_on(s@, '|'),
                ),
                None => !all_known(self@, split_on(s@, '|')),
            },
    {
        let parts = split_bar(s);
        let ghost all = split_on(s@, '|');
        let mut acc: u64 = 0;
        let mut i: usize = 0;
        while i < parts.len()
            invariant
                self.wf(),
                all == texts_view(parts@),
                all == split_on(s@, '|'),
                i <= parts@.len(),
                all_known(self@, all.take(i as int)),
                acc == flags_of(self@, all.take(i as int)),
            decreases parts@.len() - i,
        {
            proof {
                assert(all.take(i + 1).drop_last() =~= all.take(i as int));
                assert(all.take(i + 1).last() == parts@[i as int]@);
            }
            match self.try_get_single(parts[i].as_str()) {
                Some(flag) => {
                    acc = acc | flag.0;
                    assert forall|j: int| 0 <= j < i + 1 implies has_name(
                        self@,
                        #[trigger] all.take(i + 1)[j],
                    ) by {
                        if j < i {
                            assert(all.take(i as int)[j] == all.take(i + 1)[j]);
                        }
                    }
                },
                None => {
                    assert(all[i as int] == parts@[i as int]@);
                    assert(!has_name(self@, all[i as int]));
                    return None;
                },
            }
            i += 1;
        }
        proof {
            assert(all.take(i as int) =~= all);
        }
        Some(FlagValue(acc))
    }

    /// The names of the flags that are set, lowest bit first, with `|`
    /// between them; `None` for the empty set. Only flags that this table
    /// gave have names.
    pub fn as_str(&self, value: FlagValue) -> (r: String)
        requires
            self.wf(),
            issued(self@, value.0),
        ensures
            r@ == if value.0 == 0 {
                "None"@
            } else {
                join_with(selected(self@, value.0, 64), '|')
            },
    {
        if value.0 == 0 {
            return String::from_str("None");
        }
        let x = value.0;
        let mut v: u64 = x;
        let mut index: u64 = 0;
        let mut out = String::new();
        let mut first = true;
        let ghost mut sel: Seq<Seq<char>> = Seq::empty();
        assert(x >> 0 == x) by (bit_vector);
        while v > 0
            invariant
                self.wf(),
                issued(self@, x),
                index <= 64,
                index < 64 ==> v == x >> index,
                index == 64 ==> v == 0,
                sel == selected(self@, x, index as nat),
                first == (sel.len() == 0),
                out@ == join_with(sel, '|'),
            decreases v,
        {
            let ghost old_sel = sel;
            assert(index < 64);
            if v & 1 == 1 {
                assert(bit_set(x, index));
                proof {
                    lemma_issued_bits(self@, x, index);
                }
                let n = self.table.names.len();
                assert(self@.len() == n);
                let name = self.table.names[index as usize].as_str();
                assert(name@ == self@[index as int]);
                if first {
                    out.append(name);
                    first = false;
                    proof {
                        sel = sel.push(name@);
                        assert(out@ =~= name@);
                        assert(sel =~= seq![name@]);
                    }
                } else {
                    proof {
                        reveal_strlit("|");
                        assert("|"@ =~= seq!['|']);
                    }
                    out.append("|");
                    out.append(name);
                    proof {
                        sel = sel.push(name@);
                        assert(sel.drop_last() =~= old_sel);
                        assert(out@ =~= join_with(old_sel, '|').push('|') + name@);
                    }
                }
            } else {
                assert(!bit_set(x, index));
            }
            proof {
                let i = index;
                assert(v > 0 ==> (v >> 1) < v) by (bit_vector);
                if i < 63 {
                    assert((x >> i) >> 1 == x >> ((i + 1) as u64)) by (bit_vector)
                        requires
                            i < 63,
                    ;
                } else {
                    assert((x >> 63) >> 1 == 0) by (bit_vector);
                }
            }
            v = v >> 1;
            index = index + 1;
        }
        proof {
            lemma_selected_above(self@, x, index, 64);
        }
        out
    }
}

/// No bit is set at or above `from` where the bits from there on are zero:
/// the names of the set bits are those below `from`.
pub proof fn lemma_selected_above(names: Seq<Seq<char>>, x: u64, from: u64, to: u64)
    requires
        from <= to <= 64,
        from < 64 ==> x >> from == 0,
    ensures
        selected(names, x, to as nat) == selected(names, x, from as nat),
    decreases to - from,
{
    if from < to {
        let j = (to - 1) as u64;
        lemma_selected_above(names, x, from, j);
        assert(x >> from == 0 && from <= j && j < 64 ==> (x >> j) & 1 == 0) by (bit_vector);
    }
}

} // verus!
