//! Identifiers of native spaces, windows and virtual workspaces.
use crate::order::Ranked;
use crate::text::decimal;
use crate::text::padding_keeps_the_value;
use crate::text::decimal_round_trip;
use crate::text::decimal_is_digits;
use crate::text::decimal_injective;
use crate::text::decimal_string;
use crate::text::digit_scale_of;
use crate::text::digits_value;
use crate::text::lemma_value_of_appended;
use crate::text::zero_padded;
use crate::text::zero_padded_string;
use vstd::prelude::*;

verus! {

/// A native space: what one display shows at a time.
#[derive(Clone, Copy, PartialEq, Eq, Structural, Debug, Hash, PartialOrd, Ord)]
pub struct SpaceId {
    pub id: u64,
}

impl SpaceId {
    pub fn new(id: u64) -> (r: Self)
        ensures
            r.id == id,
    {
        SpaceId { id }
    }

    pub fn get(&self) -> (r: u64)
        ensures
            r == self.id,
    {
        self.id
    }

    /// How a message spells the space.
    pub open spec fn spelled(self) -> Seq<char> {
        "SpaceId("@ + decimal(self.id as nat) + ")"@
    }

    /// Spells the space for a message.
    pub fn spell(&self) -> (r: String)
        ensures
            r@ == self.spelled(),
    {
        let mut text = "SpaceId(".to_owned();
        text.append(decimal_string(self.id).as_str());
        text.append(")");
        text
    }
}

/// A window: the process that owns it and its number within that process.
#[derive(Clone, Copy, PartialEq, Eq, Structural, Debug, Hash, PartialOrd, Ord)]
pub struct WindowId {
    pub pid: i32,
    pub idx: u32,
}

impl WindowId {
    pub fn new(pid: i32, idx: u32) -> (r: Self)
        ensures
            r == (WindowId { pid, idx }),
    {
        WindowId { pid, idx }
    }
}

/// A virtual workspace: the index of the slot that holds it, and the version
/// of that slot, which is odd while the slot is taken. A slot that is taken
/// again is in the next odd version, or in version 1 behind the last.
///
/// Workspaces are ordered by slot, and by version within a slot. A store takes
/// slots in ascending order and none a second time, so that this is the order
/// of creation.
#[derive(Clone, Copy, PartialEq, Eq, Structural, Debug, Hash)]
pub struct VirtualWorkspaceId {
    pub(crate) raw: u64,
}

impl VirtualWorkspaceId {
    #[verifier::type_invariant]
    spec fn names_taken_slot(self) -> bool {
        self.version() % 2 == 1
    }

    /// The slot.
    pub closed spec fn index(self) -> int {
        self.raw as int % 0x1_0000_0000
    }

    /// The version of the slot.
    pub closed spec fn version(self) -> int {
        self.raw as int / 0x1_0000_0000
    }

    /// The number of the identifier: version and slot, in the upper and the
    /// lower 32 bits.
    pub closed spec fn number(self) -> u64 {
        self.raw
    }

    /// The identifier of a slot in a version.
    pub closed spec fn at(index: int, version: int) -> Self {
        VirtualWorkspaceId { raw: (version * 0x1_0000_0000 + index) as u64 }
    }

    /// The identifier under which the slot is taken again once it is freed.
    pub open spec fn renewed(self) -> Self {
        Self::at(
            self.index(),
            if self.version() + 2 < 0x1_0000_0000 {
                self.version() + 2
            } else {
                1
            },
        )
    }

    /// How a message spells the identifier.
    pub open spec fn spelled(self) -> Seq<char> {
        if self.index() == u32::MAX {
            "VirtualWorkspaceId(null)"@
        } else {
            "VirtualWorkspaceId("@ + decimal(self.index() as nat) + "v"@ + decimal(
                self.version() as nat,
            ) + ")"@
        }
    }

    /// What a user sees of the identifier: the digits of slot and version as
    /// one number of at least eight digits, where that number fits in 64 bits.
    pub open spec fn labelled(self) -> Seq<char> {
        let number = digits_value(
            decimal(self.index() as nat) + decimal(self.version() as nat),
        );
        if self.index() != u32::MAX && number <= u64::MAX {
            zero_padded(decimal(number), 8)
        } else {
            self.spelled()
        }
    }

    /// The identifier with the given number. An even version stands for the
    /// odd one above it.
    pub fn from_raw(raw: u64) -> (r: Self)
        ensures
            r.index() == raw % 0x1_0000_0000,
            r.version() == (if (raw / 0x1_0000_0000) % 2 == 1 {
                raw as int / 0x1_0000_0000
            } else {
                raw as int / 0x1_0000_0000 + 1
            }),
    {
        let version: u64 = raw / 0x1_0000_0000;
        if version % 2 == 1 {
            VirtualWorkspaceId { raw }
        } else {
            assert(version < 0xffff_ffff);
            assert((raw + 0x1_0000_0000) / 0x1_0000_0000 == version + 1);
            assert((version + 1) % 2 == 1);
            VirtualWorkspaceId { raw: raw + 0x1_0000_0000 }
        }
    }

    /// The number of the identifier.
    pub fn as_raw(&self) -> (r: u64)
        ensures
            r == self.number(),
    {
        self.raw
    }

    /// The slot of the identifier.
    pub fn slot(&self) -> (r: u64)
        ensures
            r == self.index(),
    {
        self.raw % 0x1_0000_0000
    }

    /// The version of the identifier, which is odd.
    pub fn slot_version(&self) -> (r: u64)
        ensures
            r == self.version(),
            r % 2 == 1,
    {
        proof {
            use_type_invariant(self);
        }
        self.raw / 0x1_0000_0000
    }

    /// Spells the identifier for a message.
    pub fn spell(&self) -> (r: String)
        ensures
            r@ == self.spelled(),
    {
        let index: u64 = self.raw % 0x1_0000_0000;
        let version: u64 = self.raw / 0x1_0000_0000;
        if index == 0xffff_ffff {
            return "VirtualWorkspaceId(null)".to_owned();
        }
        let mut text = "VirtualWorkspaceId(".to_owned();
        text.append(decimal_string(index).as_str());
        text.append("v");
        text.append(decimal_string(version).as_str());
        text.append(")");
        text
    }

    /// The text that a user sees.
    pub fn label(&self) -> (r: String)
        ensures
            r@ == self.labelled(),
    {
        let index: u64 = self.raw % 0x1_0000_0000;
        let version: u64 = self.raw / 0x1_0000_0000;
        if index == 0xffff_ffff {
            return self.spell();
        }
        let scale = digit_scale_of(version as u32);
        proof {
            let digits = decimal(index as nat);
            assert(Seq::<char>::empty() + digits =~= digits);
            lemma_value_of_appended(Seq::<char>::empty(), index as nat);
            lemma_value_of_appended(digits, version as nat);
            let k = crate::text::digit_scale(index as nat);
            assert(0 * k == 0) by (nonlinear_arith);
            assert(index * scale <= 0xffff_ffff * 0x10_0000_0000) by (nonlinear_arith)
                requires
                    index <= 0xffff_ffff,
                    scale <= 0x10_0000_0000,
            ;
        }
        let number: u128 = index as u128 * scale as u128 + version as u128;
        if number <= 0xffff_ffff_ffff_ffff {
            zero_padded_string(number as u64, 8)
        } else {
            self.spell()
        }
    }
}

impl Ranked for VirtualWorkspaceId {
    closed spec fn rank(self) -> int {
        self.index() * 0x1_0000_0000 + self.version()
    }

    fn rank_value(&self) -> (r: u64) {
        (self.raw % 0x1_0000_0000) * 0x1_0000_0000 + self.raw / 0x1_0000_0000
    }

    proof fn rank_identifies(a: Self, b: Self) {
        assert(a.raw == a.version() * 0x1_0000_0000 + a.index());
        assert(b.raw == b.version() * 0x1_0000_0000 + b.index());
    }
}

/// Identifiers are ordered by slot, and by version within a slot.
pub proof fn rank_is_slot_then_version(a: VirtualWorkspaceId, b: VirtualWorkspaceId)
    ensures
        a.rank() < b.rank() <==> (a.index() < b.index() || (a.index() == b.index() && a.version()
            < b.version())),
{
}

/// The number is made of version and slot, and tells identifiers apart.
pub proof fn number_of_slot(a: VirtualWorkspaceId, b: VirtualWorkspaceId)
    ensures
        a.number() == a.version() * 0x1_0000_0000 + a.index(),
        a.number() == b.number() ==> a == b,
{
}

/// An identifier is that of its slot and version.
pub proof fn identifier_is_its_slot(id: VirtualWorkspaceId)
    ensures
        id == VirtualWorkspaceId::at(id.index(), id.version()),
        0 <= id.index() < 0x1_0000_0000,
        0 <= id.version() < 0x1_0000_0000,
{
}

/// A slot that is taken again gives another identifier.
pub proof fn renewed_keeps_slot(id: VirtualWorkspaceId)
    ensures
        id.renewed().index() == id.index(),
        id.renewed() != id,
{
    let version = if id.version() + 2 < 0x1_0000_0000 {
        id.version() + 2
    } else {
        1
    };
    identifier_of_slot(id.index(), version);
}

/// Slot and version are those that an identifier was made of.
pub proof fn identifier_of_slot(index: int, version: int)
    requires
        0 <= index < 0x1_0000_0000,
        0 <= version < 0x1_0000_0000,
    ensures
        VirtualWorkspaceId::at(index, version).index() == index,
        VirtualWorkspaceId::at(index, version).version() == version,
{
}

/// A slot that is taken again is in the next odd version, and in the first one
/// behind the last.
pub proof fn renewed_is_a_version_on(id: VirtualWorkspaceId)
    requires
        id.version() % 2 == 1,
    ensures
        id.renewed().version() % 2 == 1,
        id.version() < 0xffff_ffff ==> id.renewed().version() == id.version() + 2,
        id.version() == 0xffff_ffff ==> id.renewed().version() == 1,
{
    let version = if id.version() + 2 < 0x1_0000_0000 {
        id.version() + 2
    } else {
        1
    };
    identifier_of_slot(id.index(), version);
}

/// What a user sees of an identifier are the digits of its slot and behind them
/// those of its version, with zeros in front up to eight digits, unless that is
/// too great a number or the slot names none.
pub proof fn labels_read_back(id: VirtualWorkspaceId)
    ensures
        ({
            let digits = decimal(id.index() as nat) + decimal(id.version() as nat);
            let shown = id.index() != u32::MAX && digits_value(digits) <= u64::MAX;
            &&& shown ==> digits_value(id.labelled()) == digits_value(digits)
            &&& shown ==> id.labelled().len() >= 8
            &&& shown && id.labelled().len() > 8 ==> id.labelled()[0] != '0'
            &&& !shown ==> id.labelled() == id.spelled()
        }),
{
    let number = digits_value(decimal(id.index() as nat) + decimal(id.version() as nat));
    decimal_round_trip(number);
    decimal_is_digits(number);
    padding_keeps_the_value(decimal(number), 8);
}

/// A letter behind digits tells where they end.
proof fn lemma_parted(a: Seq<char>, b: Seq<char>, c: Seq<char>, d: Seq<char>, letter: char)
    requires
        !a.contains(letter),
        !c.contains(letter),
        a + seq![letter] + b == c + seq![letter] + d,
    ensures
        a == c,
        b == d,
{
    let left = a + seq![letter] + b;
    let right = c + seq![letter] + d;
    assert(left[a.len() as int] == letter);
    assert(right[c.len() as int] == letter);
    if a.len() < c.len() {
        assert(right[a.len() as int] == c[a.len() as int]);
        assert(c.contains(c[a.len() as int]));
    }
    if c.len() < a.len() {
        assert(left[c.len() as int] == a[c.len() as int]);
        assert(a.contains(a[c.len() as int]));
    }
    assert(left.take(a.len() as int) =~= a);
    assert(right.take(c.len() as int) =~= c);
    assert(left.skip(a.len() as int + 1) =~= b);
    assert(right.skip(c.len() as int + 1) =~= d);
}

proof fn lemma_no_letter(n: nat, letter: char)
    requires
        letter as int > 57,
    ensures
        !decimal(n).contains(letter),
{
    decimal_is_digits(n);
    if decimal(n).contains(letter) {
        let i = choose|i: int| 0 <= i < decimal(n).len() && decimal(n)[i] == letter;
        assert(decimal(n)[i] as int <= 57);
    }
}

/// Messages spell different identifiers differently, and different spaces too.
pub proof fn spelling_tells_apart(
    a: VirtualWorkspaceId,
    b: VirtualWorkspaceId,
    here: SpaceId,
    there: SpaceId,
)
    ensures
        a.index() != u32::MAX && b.index() != u32::MAX && a.spelled() == b.spelled() ==> a == b,
        here.spelled() == there.spelled() ==> here == there,
{
    reveal_strlit("VirtualWorkspaceId(");
    reveal_strlit("v");
    reveal_strlit(")");
    reveal_strlit("SpaceId(");
    if a.index() != u32::MAX && b.index() != u32::MAX && a.spelled() == b.spelled() {
        let front = "VirtualWorkspaceId("@;
        let (i, v) = (decimal(a.index() as nat), decimal(a.version() as nat));
        let (j, w) = (decimal(b.index() as nat), decimal(b.version() as nat));
        assert("v"@ =~= seq!['v']);
        assert(a.spelled().skip(front.len() as int) =~= i + seq!['v'] + (v + ")"@));
        assert(b.spelled().skip(front.len() as int) =~= j + seq!['v'] + (w + ")"@));
        lemma_no_letter(a.index() as nat, 'v');
        lemma_no_letter(b.index() as nat, 'v');
        lemma_parted(i, v + ")"@, j, w + ")"@, 'v');
        assert((v + ")"@).drop_last() =~= v);
        assert((w + ")"@).drop_last() =~= w);
        decimal_injective(a.index() as nat, b.index() as nat);
        decimal_injective(a.version() as nat, b.version() as nat);
        identifier_is_its_slot(a);
        identifier_is_its_slot(b);
    }
    if here.spelled() == there.spelled() {
        let front = "SpaceId("@;
        assert(here.spelled().skip(front.len() as int).drop_last() =~= decimal(here.id as nat));
        assert(there.spelled().skip(front.len() as int).drop_last() =~= decimal(there.id as nat));
        decimal_injective(here.id as nat, there.id as nat);
    }
}

} // verus!
