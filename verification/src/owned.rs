//! The owned text buffer and its dual-length descriptor.
//!
//! An [`OwnedUnicodeString`] owns a growable buffer of 16-bit code units
//! together with the two descriptor fields that low-level host text APIs
//! read: the logical length of the meaningful text and the physical
//! capacity of the buffer, both in bytes.  The operations here keep the
//! descriptor fields consistent with the buffer's real contents.

use vstd::prelude::*;
use crate::utf16::{decode_to_string, decode_utf16, encode_text, encode_utf16};

verus! {

/// The greatest number of units whose byte length still fits the
/// 16-bit descriptor fields.
pub const UNIT_COUNT_LIMIT: usize = 32767;

/// The number of zero units at the end of a unit sequence.
pub open spec fn trailing_zero_units(s: Seq<u16>) -> nat
    decreases s.len(),
{
    if s.len() > 0 && s.last() == 0 {
        1 + trailing_zero_units(s.drop_last())
    } else {
        0
    }
}

/// A non-empty sequence ending in a zero unit, the marker that host APIs
/// scanning for an end-of-string terminator rely on.
pub open spec fn is_terminated(s: Seq<u16>) -> bool {
    s.len() > 0 && s.last() == 0
}

/// The sequence after the ensure-terminated action: unchanged when it
/// already ends in a zero unit, and with one zero unit appended when not.
pub open spec fn terminated_units(s: Seq<u16>) -> Seq<u16> {
    if is_terminated(s) {
        s
    } else {
        s.push(0)
    }
}

/// A unit sequence with its trailing run of zero units removed.
pub open spec fn stripped_units(s: Seq<u16>) -> Seq<u16> {
    s.take(s.len() - trailing_zero_units(s))
}

pub proof fn lemma_trailing_zero_units_bound(s: Seq<u16>)
    ensures
        trailing_zero_units(s) <= s.len(),
    decreases s.len(),
{
    if s.len() > 0 && s.last() == 0 {
        lemma_trailing_zero_units_bound(s.drop_last());
    }
}

/// The trailing-zero count is the length of the zero run at the end:
/// whenever the last `k` units are zero and the unit before them (if
/// any) is not, the count is exactly `k`.
pub proof fn lemma_trailing_zero_units_exact(s: Seq<u16>, k: int)
    requires
        0 <= k <= s.len(),
        forall|j: int| s.len() - k <= j < s.len() ==> s[j] == 0,
        k < s.len() ==> s[s.len() - k - 1] != 0,
    ensures
        trailing_zero_units(s) == k,
    decreases k,
{
    if k == 0 {
        assert(s.len() > 0 ==> s.last() != 0);
    } else {
        assert(s.last() == 0);
        lemma_trailing_zero_units_exact(s.drop_last(), k - 1);
    }
}

/// Appending a zero unit lengthens the trailing zero run by one.
pub proof fn lemma_trailing_zero_units_push_zero(s: Seq<u16>)
    ensures
        trailing_zero_units(s.push(0)) == trailing_zero_units(s) + 1,
{
    assert(s.push(0).last() == 0);
    assert(s.push(0).drop_last() =~= s);
}

/// A safe abstraction over a host text descriptor: an owned buffer of
/// 16-bit code units together with the logical length and physical
/// capacity of the buffer, both counted in bytes.
///
/// Construction and every buffer-changing operation leave the two
/// descriptor fields consistent with the buffer ([`Self::wf`]), with one
/// deliberate escape hatch: [`Self::push_unit`] mutates the buffer
/// directly and leaves the fields stale until [`Self::compute_size`] is
/// invoked again.
pub struct OwnedUnicodeString {
    buffer: Vec<u16>,
    length: u16,
    maximum_length: u16,
}

impl OwnedUnicodeString {
    /// The owned code units.
    pub closed spec fn units(&self) -> Seq<u16> {
        self.buffer@
    }

    /// The byte length of the meaningful text: the buffer excluding its
    /// trailing run of zero units, two bytes per unit.
    pub closed spec fn length_bytes(&self) -> u16 {
        self.length
    }

    /// The byte length of the full physical buffer, two bytes per unit.
    pub closed spec fn maximum_length_bytes(&self) -> u16 {
        self.maximum_length
    }

    /// The descriptor fields are consistent with the buffer's contents.
    /// The buffer is bounded so that both byte lengths fit the 16-bit
    /// descriptor fields without wrapping.
    pub open spec fn wf(&self) -> bool {
        &&& self.units().len() <= UNIT_COUNT_LIMIT
        &&& self.maximum_length_bytes() == self.units().len() * 2
        &&& self.length_bytes() == (self.units().len() - trailing_zero_units(self.units())) * 2
    }

    /// How many units of the buffer the logical length covers.  The
    /// count is clamped to the buffer, so it is meaningful even while
    /// the descriptor fields are stale.
    pub open spec fn logical_unit_count(&self) -> int {
        if self.length_bytes() as int / 2 <= self.units().len() {
            self.length_bytes() as int / 2
        } else {
            self.units().len() as int
        }
    }

    /// The logical slice of the buffer: the units the logical length
    /// covers.  Derived operations compare and decode exactly this
    /// slice.
    pub open spec fn logical_view(&self) -> Seq<u16> {
        self.units().take(self.logical_unit_count())
    }

    /// Under [`Self::wf`] the logical slice is the buffer with its
    /// trailing run of zero units removed.
    pub proof fn lemma_logical_view_wf(&self)
        requires
            self.wf(),
        ensures
            self.logical_view() == stripped_units(self.units()),
            self.logical_unit_count() == self.units().len() - trailing_zero_units(self.units()),
    {
        lemma_trailing_zero_units_bound(self.units());
    }

    /// Recomputes both descriptor fields from the buffer's contents:
    /// the capacity is the full buffer in bytes, and the logical length
    /// excludes the trailing run of zero units.  This is the
    /// invariant-restoring step after any direct buffer mutation.
    pub fn compute_size(&mut self)
        requires
            old(self).units().len() <= UNIT_COUNT_LIMIT,
        ensures
            final(self).units() == old(self).units(),
            final(self).wf(),
    {
        let n = self.buffer.len();
        let mut count: usize = 0;
        while count < n && self.buffer[n - 1 - count] == 0
            invariant
                n == self.units().len(),
                count <= n,
                forall|j: int| n - count <= j < n ==> self.units()[j] == 0,
            decreases n - count,
        {
            count = count + 1;
        }
        proof {
            lemma_trailing_zero_units_exact(self.units(), count as int);
        }
        self.maximum_length = (n * 2) as u16;
        self.length = ((n - count) * 2) as u16;
    }

    /// Builds a buffer by taking ownership of a sequence of code units
    /// and computing the descriptor fields from its contents.
    pub fn from_units(units: Vec<u16>) -> (r: Self)
        requires
            units@.len() <= UNIT_COUNT_LIMIT,
        ensures
            r.units() == units@,
            r.wf(),
    {
        let mut result = OwnedUnicodeString { buffer: units, length: 0, maximum_length: 0 };
        result.compute_size();
        result
    }

    /// Builds a buffer from a sequence of code units, reporting `None`
    /// when the unit count exceeds what the 16-bit byte-length fields
    /// can describe.
    pub fn try_from_units(units: Vec<u16>) -> (r: Option<Self>)
        ensures
            (r is Some) <==> units@.len() <= UNIT_COUNT_LIMIT,
            r is Some ==> r->0.units() == units@ && r->0.wf(),
    {
        if units.len() <= UNIT_COUNT_LIMIT {
            Some(Self::from_units(units))
        } else {
            None
        }
    }

    /// Whether the buffer ends in a zero unit; an empty buffer does not.
    pub fn is_null_terminated(&self) -> (r: bool)
        ensures
            r == is_terminated(self.units()),
    {
        let n = self.buffer.len();
        n > 0 && self.buffer[n - 1] == 0
    }

    /// Appends a zero unit unless the buffer already ends in one.  The
    /// capacity field is updated eagerly, but the logical length is
    /// deliberately left at the pre-termination content: the appended
    /// terminator does not count as meaningful text.  A buffer that is
    /// already terminated is left untouched, so a second call in a row
    /// changes nothing.
    pub fn ensure_is_null_terminated(&mut self)
        requires
            old(self).wf(),
            is_terminated(old(self).units()) || old(self).units().len() < UNIT_COUNT_LIMIT,
        ensures
            final(self).wf(),
            is_terminated(final(self).units()),
            final(self).units() == terminated_units(old(self).units()),
            final(self).length_bytes() == old(self).length_bytes(),
            final(self).maximum_length_bytes() == final(self).units().len() * 2,
            is_terminated(old(self).units()) ==> *final(self) == *old(self),
    {
        if !self.is_null_terminated() {
            self.buffer.push(0u16);
            self.maximum_length = self.maximum_length + 2;
            proof {
                lemma_trailing_zero_units_push_zero(old(self).units());
                lemma_trailing_zero_units_bound(old(self).units());
            }
        }
    }

    /// Appends one code unit directly, without maintaining the
    /// descriptor fields: they are stale until [`Self::compute_size`]
    /// is invoked again.  This is the deliberate escape hatch for
    /// callers that build buffer contents by hand.
    pub fn push_unit(&mut self, unit: u16)
        requires
            old(self).units().len() < UNIT_COUNT_LIMIT,
        ensures
            final(self).units() == old(self).units().push(unit),
            final(self).length_bytes() == old(self).length_bytes(),
            final(self).maximum_length_bytes() == old(self).maximum_length_bytes(),
    {
        self.buffer.push(unit);
    }

    /// The logical length descriptor field, in bytes.
    pub fn length(&self) -> (r: u16)
        ensures
            r == self.length_bytes(),
    {
        self.length
    }

    /// The physical capacity descriptor field, in bytes.
    pub fn maximum_length(&self) -> (r: u16)
        ensures
            r == self.maximum_length_bytes(),
    {
        self.maximum_length
    }

    /// Read access to the owned code units.
    pub fn as_units(&self) -> (r: &Vec<u16>)
        ensures
            r@ == self.units(),
    {
        &self.buffer
    }

    /// Releases the owned code units to the caller.
    pub fn into_units(self) -> (r: Vec<u16>)
        ensures
            r@ == self.units(),
    {
        self.buffer
    }

    /// Encodes a text slice as UTF-16 and takes the result as the
    /// owned buffer, with the descriptor fields computed from it.
    pub fn from_text(text: &str) -> (r: Self)
        requires
            encode_utf16(text@).len() <= UNIT_COUNT_LIMIT,
        ensures
            r.units() == encode_utf16(text@),
            r.wf(),
    {
        Self::from_units(encode_text(text))
    }

    /// Encodes a text slice as UTF-16, reporting `None` when the
    /// encoded unit count exceeds what the 16-bit byte-length fields
    /// can describe.
    pub fn try_from_text(text: &str) -> (r: Option<Self>)
        ensures
            (r is Some) <==> encode_utf16(text@).len() <= UNIT_COUNT_LIMIT,
            r is Some ==> r->0.units() == encode_utf16(text@) && r->0.wf(),
    {
        let units = encode_text(text);
        Self::try_from_units(units)
    }

    /// Decodes exactly the logical slice of the buffer into text, one
    /// replacement character for each ill-formed unit encountered.
    pub fn to_display_string(&self) -> (r: String)
        ensures
            r@ == decode_utf16(self.logical_view()),
    {
        let half = (self.length / 2) as usize;
        let count = if half <= self.buffer.len() {
            half
        } else {
            self.buffer.len()
        };
        decode_to_string(&self.buffer, count)
    }

    /// Appends the logical slice of `rhs` — its buffer without its
    /// trailing run of zero units — onto the entire physical buffer of
    /// `self`, including any trailing zero units `self` holds, and
    /// recomputes the descriptor fields.  Zero units of `self` that were
    /// at the end become embedded and are no longer counted by the
    /// recomputed logical length.
    pub fn concat(self, rhs: Self) -> (r: Self)
        requires
            self.units().len() + rhs.logical_view().len() <= UNIT_COUNT_LIMIT,
        ensures
            r.units() == self.units() + rhs.logical_view(),
            r.wf(),
    {
        let ghost lhs_units: Seq<u16> = self.units();
        let mut out = self;
        let half = (rhs.length / 2) as usize;
        let count = if half <= rhs.buffer.len() {
            half
        } else {
            rhs.buffer.len()
        };
        let mut i: usize = 0;
        while i < count
            invariant
                i <= count,
                count == rhs.logical_view().len(),
                count <= rhs.buffer@.len(),
                lhs_units.len() + count <= UNIT_COUNT_LIMIT,
                out.buffer@ == lhs_units + rhs.logical_view().take(i as int),
            decreases count - i,
        {
            out.buffer.push(rhs.buffer[i]);
            proof {
                assert(lhs_units + rhs.logical_view().take(i + 1) =~= (lhs_units
                    + rhs.logical_view().take(i as int)).push(rhs.buffer@[i as int]));
            }
            i = i + 1;
        }
        proof {
            assert(rhs.logical_view().take(count as int) =~= rhs.logical_view());
        }
        out.compute_size();
        out
    }

    /// Converts the text operand to a buffer, then concatenates as
    /// [`Self::concat`] does.
    pub fn concat_text(self, rhs: &str) -> (r: Self)
        requires
            self.units().len() + encode_utf16(rhs@).len() <= UNIT_COUNT_LIMIT,
        ensures
            r.units() == self.units() + stripped_units(encode_utf16(rhs@)),
            r.wf(),
    {
        let other = Self::from_text(rhs);
        proof {
            other.lemma_logical_view_wf();
            lemma_trailing_zero_units_bound(other.units());
        }
        self.concat(other)
    }
}

/// Equality compares the logical slices of both operands for exact
/// code-unit equality: case-sensitive, no normalization.  Buffers with
/// identical logical content but different trailing-zero padding are
/// equal.
impl PartialEq for OwnedUnicodeString {
    fn eq(&self, other: &Self) -> (r: bool) {
        let self_half = (self.length / 2) as usize;
        let self_count = if self_half <= self.buffer.len() {
            self_half
        } else {
            self.buffer.len()
        };
        let other_half = (other.length / 2) as usize;
        let other_count = if other_half <= other.buffer.len() {
            other_half
        } else {
            other.buffer.len()
        };
        proof {
            assert(self_count == self.logical_view().len());
            assert(other_count == other.logical_view().len());
        }
        if self_count != other_count {
            return false;
        }
        let mut i: usize = 0;
        while i < self_count
            invariant
                i <= self_count,
                self_count == self.logical_view().len(),
                other_count == other.logical_view().len(),
                self_count == other_count,
                self_count <= self.buffer@.len(),
                other_count <= other.buffer@.len(),
                forall|j: int| 0 <= j < i ==> self.logical_view()[j] == other.logical_view()[j],
            decreases self_count - i,
        {
            if self.buffer[i] != other.buffer[i] {
                assert(self.logical_view()[i as int] != other.logical_view()[i as int]);
                return false;
            }
            i = i + 1;
        }
        proof {
            assert(self.logical_view() =~= other.logical_view());
        }
        true
    }
}

impl vstd::std_specs::cmp::PartialEqSpecImpl for OwnedUnicodeString {
    open spec fn obeys_eq_spec() -> bool {
        true
    }

    open spec fn eq_spec(&self, other: &Self) -> bool {
        logical_eq(self, other)
    }
}

/// What `==` means for buffers: the logical slices hold the same units.
pub open spec fn logical_eq(a: &OwnedUnicodeString, b: &OwnedUnicodeString) -> bool {
    a.logical_view() == b.logical_view()
}

/// Equality of logical content is an equivalence relation: reflexive,
/// symmetric and transitive.
pub proof fn lemma_logical_eq_equivalence(
    a: &OwnedUnicodeString,
    b: &OwnedUnicodeString,
    c: &OwnedUnicodeString,
)
    ensures
        logical_eq(a, a),
        logical_eq(a, b) ==> logical_eq(b, a),
        logical_eq(a, b) && logical_eq(b, c) ==> logical_eq(a, c),
{
}

/// Trailing-zero padding never affects equality: buffers whose unit
/// sequences agree once their trailing zero runs are removed are equal.
pub proof fn lemma_eq_ignores_padding(a: &OwnedUnicodeString, b: &OwnedUnicodeString)
    requires
        a.wf(),
        b.wf(),
        stripped_units(a.units()) == stripped_units(b.units()),
    ensures
        logical_eq(a, b),
{
    a.lemma_logical_view_wf();
    b.lemma_logical_view_wf();
}

/// Appending a zero unit to a buffer does not change it with its
/// trailing zero run removed.
pub proof fn lemma_stripped_units_push_zero(s: Seq<u16>)
    ensures
        stripped_units(s.push(0)) == stripped_units(s),
{
    lemma_trailing_zero_units_push_zero(s);
    lemma_trailing_zero_units_bound(s);
    assert(stripped_units(s.push(0)) =~= stripped_units(s));
}

/// Terminating a buffer never affects equality: a buffer and its
/// terminated form hold the same logical content.
pub proof fn lemma_eq_after_termination(a: &OwnedUnicodeString, b: &OwnedUnicodeString)
    requires
        a.wf(),
        b.wf(),
        b.units() == terminated_units(a.units()),
    ensures
        logical_eq(a, b),
{
    if !is_terminated(a.units()) {
        lemma_stripped_units_push_zero(a.units());
    }
    lemma_eq_ignores_padding(a, b);
}

/// The ensure-terminated action is idempotent: its result always ends
/// in a zero unit, and a second application changes nothing.
pub proof fn lemma_terminated_units_idempotent(s: Seq<u16>)
    ensures
        is_terminated(terminated_units(s)),
        terminated_units(terminated_units(s)) == terminated_units(s),
{
    if !is_terminated(s) {
        assert(s.push(0).last() == 0);
    }
}

/// Invariant closure of the descriptor: wherever the fields are
/// consistent with the buffer — as they are after any recompute — the
/// logical length never exceeds the capacity, and the capacity is
/// exactly the unit count in bytes.
pub proof fn lemma_descriptor_bounds(a: &OwnedUnicodeString)
    requires
        a.wf(),
    ensures
        a.length_bytes() <= a.maximum_length_bytes(),
        a.maximum_length_bytes() == a.units().len() * 2,
{
    lemma_trailing_zero_units_bound(a.units());
}

/// Round trip: displaying a buffer built from a text yields that text
/// again, for every text that does not end in a NUL scalar value.  (A
/// trailing NUL encodes to a trailing zero unit, which the logical
/// length excludes, so such a text comes back without it.)
pub proof fn lemma_display_round_trip(b: &OwnedUnicodeString, t: Seq<char>)
    requires
        b.wf(),
        b.units() == encode_utf16(t),
        t.len() > 0 ==> t.last() != '\0',
    ensures
        decode_utf16(b.logical_view()) == t,
{
    b.lemma_logical_view_wf();
    if t.len() == 0 {
        assert(b.units().len() == 0);
        assert(b.logical_view() =~= Seq::<u16>::empty());
        assert(decode_utf16(b.logical_view()) =~= t);
    } else {
        crate::utf16::lemma_encode_utf16_last_nonzero(t);
        assert(trailing_zero_units(b.units()) == 0);
        assert(stripped_units(b.units()) =~= b.units());
        crate::utf16::lemma_decode_encode(t);
    }
}

} // verus!
