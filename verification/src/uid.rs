//! UID lifecycle: the textual form of a UID and the process-wide registry
//! mapping each live UID to its canonical path.
//!
//! A UID is a non-negative `i64`; the value `-1` is the sentinel for
//! "unassigned".  Its textual form is `uid://` followed by the decimal
//! digits of the id; an id of `-1` renders as `uid://<invalid>`.  The
//! registry holds at most one canonical path per live UID and allocates
//! fresh ids from a counter that stays strictly above every registered id.

use vstd::prelude::*;

verus! {

/// The sentinel id meaning "unassigned".
pub const INVALID_UID: i64 = -1;

/// True for the characters `'0'` through `'9'`.
pub open spec fn is_dec_digit(c: char) -> bool {
    48 <= c as int <= 57
}

/// The digit character for a value in `0..10`.
pub open spec fn digit_char(d: int) -> char
    recommends
        0 <= d < 10,
{
    if d == 0 {
        '0'
    } else if d == 1 {
        '1'
    } else if d == 2 {
        '2'
    } else if d == 3 {
        '3'
    } else if d == 4 {
        '4'
    } else if d == 5 {
        '5'
    } else if d == 6 {
        '6'
    } else if d == 7 {
        '7'
    } else if d == 8 {
        '8'
    } else {
        '9'
    }
}

/// Decimal digits of `n`, most significant first.
pub open spec fn dec_digits(n: nat) -> Seq<char>
    decreases n,
{
    if n < 10 {
        seq![digit_char(n as int)]
    } else {
        dec_digits(n / 10) + seq![digit_char((n % 10) as int)]
    }
}

/// The numeric value of a sequence of decimal digit characters.
pub open spec fn dec_value(s: Seq<char>) -> int
    decreases s.len(),
{
    if s.len() == 0 {
        0
    } else {
        dec_value(s.drop_last()) * 10 + (s.last() as int - 48)
    }
}

/// True when every character of `s` is a decimal digit.
pub open spec fn all_dec_digits(s: Seq<char>) -> bool {
    forall|i: int| 0 <= i < s.len() ==> is_dec_digit(s[i])
}

/// The digits of `n` are all decimal digits, there is at least one, and
/// they evaluate back to `n`.
pub proof fn lemma_dec_digits_value(n: nat)
    ensures
        dec_digits(n).len() >= 1,
        all_dec_digits(dec_digits(n)),
        dec_value(dec_digits(n)) == n,
    decreases n,
{
    if n < 10 {
        assert(dec_digits(n) =~= seq![digit_char(n as int)]);
        assert(dec_digits(n).last() == digit_char(n as int));
        assert(dec_digits(n).drop_last() =~= Seq::<char>::empty());
        assert(dec_value(Seq::<char>::empty()) == 0);
        assert(digit_char(n as int) as int == 48 + n);
        assert(dec_value(dec_digits(n)) == dec_value(dec_digits(n).drop_last()) * 10 + (
        dec_digits(n).last() as int - 48));
    } else {
        lemma_dec_digits_value(n / 10);
        let prefix = dec_digits(n / 10);
        let d = (n % 10) as int;
        assert(digit_char(d) as int == 48 + d);
        assert(dec_digits(n).drop_last() =~= prefix);
        assert(dec_digits(n).last() == digit_char(d));
        assert(dec_value(dec_digits(n)) == dec_value(prefix) * 10 + d);
        assert((n / 10) * 10 + n % 10 == n) by (nonlinear_arith);
    }
}

/// The value of a digit string never decreases when more digits follow.
pub proof fn lemma_dec_value_prefix(s: Seq<char>, k: int)
    requires
        all_dec_digits(s),
        0 <= k <= s.len(),
    ensures
        dec_value(s) >= dec_value(s.subrange(0, k)),
        dec_value(s) >= 0,
    decreases s.len() - k,
{
    if k == s.len() {
        assert(s.subrange(0, k) =~= s);
        lemma_dec_value_nonneg(s);
    } else {
        lemma_dec_value_prefix(s, k + 1);
        let t = s.subrange(0, k + 1);
        let u = s.subrange(0, k);
        assert(t.drop_last() =~= u);
        assert(is_dec_digit(t.last()));
        lemma_dec_value_nonneg(u);
        assert(dec_value(t) == dec_value(u) * 10 + (t.last() as int - 48));
        assert(dec_value(u) * 10 >= dec_value(u)) by (nonlinear_arith)
            requires dec_value(u) >= 0;
    }
}

/// The value of a digit string is non-negative.
pub proof fn lemma_dec_value_nonneg(s: Seq<char>)
    requires
        all_dec_digits(s),
    ensures
        dec_value(s) >= 0,
    decreases s.len(),
{
    if s.len() > 0 {
        assert(all_dec_digits(s.drop_last()));
        lemma_dec_value_nonneg(s.drop_last());
        assert(is_dec_digit(s.last()));
        assert(dec_value(s.drop_last()) * 10 >= 0) by (nonlinear_arith)
            requires dec_value(s.drop_last()) >= 0;
    }
}

/// Ten to the power `k`.
pub open spec fn pow10(k: nat) -> nat
    decreases k,
{
    if k == 0 {
        1
    } else {
        10 * pow10((k - 1) as nat)
    }
}

/// A value below ten to the `k` has at most `k` decimal digits.
pub proof fn lemma_dec_digits_len(n: nat, k: nat)
    requires
        n < pow10(k),
        1 <= k,
    ensures
        dec_digits(n).len() <= k,
    decreases k,
{
    if n < 10 {
    } else {
        if k == 1 {
            assert(pow10(0) == 1);
            assert(pow10(1) == 10);
            assert(false);
        }
        assert(pow10(k) == 10 * pow10((k - 1) as nat));
        assert(n / 10 < pow10((k - 1) as nat)) by (nonlinear_arith)
            requires
                n < pow10(k),
                pow10(k) == 10 * pow10((k - 1) as nat),
        ;
        lemma_dec_digits_len(n / 10, (k - 1) as nat);
    }
}

/// A value that fits an `i64` has at most nineteen decimal digits.
pub proof fn lemma_dec_digits_len_i64(n: nat)
    requires
        n <= i64::MAX,
    ensures
        dec_digits(n).len() <= 19,
{
    assert(pow10(0) == 1);
    assert(pow10(1) == 10);
    assert(pow10(2) == 100);
    assert(pow10(3) == 1000);
    assert(pow10(4) == 10000);
    assert(pow10(5) == 100000);
    assert(pow10(6) == 1000000);
    assert(pow10(7) == 10000000);
    assert(pow10(8) == 100000000);
    assert(pow10(9) == 1000000000);
    assert(pow10(10) == 10000000000);
    assert(pow10(11) == 100000000000);
    assert(pow10(12) == 1000000000000);
    assert(pow10(13) == 10000000000000);
    assert(pow10(14) == 100000000000000);
    assert(pow10(15) == 1000000000000000);
    assert(pow10(16) == 10000000000000000);
    assert(pow10(17) == 100000000000000000);
    assert(pow10(18) == 1000000000000000000);
    assert(pow10(19) == 10000000000000000000);
    lemma_dec_digits_len(n, 19);
}

/// The textual form of an id.
pub open spec fn spec_id_to_text(id: int) -> Seq<char> {
    if id >= 0 {
        "uid://"@ + dec_digits(id as nat)
    } else {
        "uid://<invalid>"@
    }
}

/// The id encoded by a textual form: the value of the digits following the
/// `uid://` scheme prefix, or `-1` when the text is not of that shape or
/// the value does not fit an `i64`.
pub open spec fn spec_text_to_id(s: Seq<char>) -> int {
    if s.len() > 6 && s.subrange(0, 6) == "uid://"@ && all_dec_digits(s.skip(6))
        && dec_value(s.skip(6)) <= i64::MAX {
        dec_value(s.skip(6))
    } else {
        -1
    }
}

/// The single digit character of a value below ten, as a string.
fn digit_str(d: u64) -> (r: &'static str)
    requires
        d < 10,
    ensures
        r@ =~= seq![digit_char(d as int)],
{
    proof {
        reveal_strlit("0");
        reveal_strlit("1");
        reveal_strlit("2");
        reveal_strlit("3");
        reveal_strlit("4");
        reveal_strlit("5");
        reveal_strlit("6");
        reveal_strlit("7");
        reveal_strlit("8");
        reveal_strlit("9");
    }
    match d {
        0 => "0",
        1 => "1",
        2 => "2",
        3 => "3",
        4 => "4",
        5 => "5",
        6 => "6",
        7 => "7",
        8 => "8",
        _ => "9",
    }
}

/// Renders `n` in decimal, most significant digit first.
pub fn dec_str(n: u64) -> (r: String)
    ensures
        r@ == dec_digits(n as nat),
    decreases n,
{
    if n < 10 {
        let r = String::from_str(digit_str(n));
        proof {
            assert(r@ =~= dec_digits(n as nat));
        }
        r
    } else {
        let mut s = dec_str(n / 10);
        s.append(digit_str(n % 10));
        proof {
            assert(s@ =~= dec_digits(n as nat));
        }
        s
    }
}

/// Renders an id in its textual form.
pub fn id_to_text(id: i64) -> (r: String)
    ensures
        r@ == spec_id_to_text(id as int),
{
    if id >= 0 {
        let mut s = String::from_str("uid://");
        let digits = dec_str(id as u64);
        s.append(digits.as_str());
        s
    } else {
        String::from_str("uid://<invalid>")
    }
}

/// Parses the textual form back into an id; `-1` when the text is not
/// `uid://` followed by digits whose value fits an `i64`.
pub fn text_to_id(s: &str) -> (r: i64)
    ensures
        r as int == spec_text_to_id(s@),
        -1 <= r,
{
    proof {
        reveal_strlit("uid://");
    }
    let n = s.unicode_len();
    if n <= 6 {
        return -1;
    }
    if !crate::format::str_starts_with(s, "uid://") {
        return -1;
    }
    let ghost digits = s@.skip(6);
    let mut acc: i64 = 0;
    let mut i: usize = 6;
    while i < n
        invariant
            6 <= i <= n,
            n == s@.len(),
            digits == s@.skip(6),
            all_dec_digits(s@.subrange(6, i as int)),
            acc as int == dec_value(s@.subrange(6, i as int)),
            0 <= acc,
        decreases n - i,
    {
        let c = s.get_char(i);
        let cv = c as u32;
        if cv < 48 || cv > 57 {
            proof {
                assert(!is_dec_digit(s@[i as int]));
                assert(digits[i - 6] == s@[i as int]);
                assert(!all_dec_digits(digits));
            }
            return -1;
        }
        let d = (cv - 48) as i64;
        if acc > (i64::MAX - d) / 10 {
            proof {
                assert(acc * 10 + d > i64::MAX) by (nonlinear_arith)
                    requires
                        acc > (i64::MAX - d) / 10,
                        0 <= d < 10,
                        0 <= acc;
                assert(s@.subrange(6, i + 1 as int).drop_last() =~= s@.subrange(6, i as int));
                assert(dec_value(s@.subrange(6, i + 1 as int)) > i64::MAX);
                if all_dec_digits(digits) {
                    assert(s@.subrange(6, i + 1 as int) =~= digits.subrange(0, i - 6 + 1));
                    lemma_dec_value_prefix(digits, i - 6 + 1);
                    assert(dec_value(digits) > i64::MAX);
                }
            }
            return -1;
        }
        proof {
            assert(acc * 10 + d <= i64::MAX) by (nonlinear_arith)
                requires
                    acc <= (i64::MAX - d) / 10,
                    0 <= d < 10,
                    0 <= acc;
            let t = s@.subrange(6, i + 1 as int);
            assert(t.drop_last() =~= s@.subrange(6, i as int));
            assert(t.last() == s@[i as int]);
        }
        acc = acc * 10 + d;
        i += 1;
    }
    proof {
        assert(s@.subrange(6, n as int) =~= digits);
    }
    acc
}

/// Parsing the textual form of a non-negative id yields the id back.
pub proof fn lemma_uid_text_roundtrip(id: int)
    requires
        0 <= id <= i64::MAX,
    ensures
        spec_text_to_id(spec_id_to_text(id)) == id,
{
    reveal_strlit("uid://");
    lemma_dec_digits_value(id as nat);
    let t = spec_id_to_text(id);
    assert(t.subrange(0, 6) =~= "uid://"@);
    assert(t.skip(6) =~= dec_digits(id as nat));
}

/// One registry entry: a live UID and its canonical path.
pub struct UidEntry {
    pub uid: i64,
    pub path: String,
}

/// The process-wide map from UID to canonical path, together with the
/// allocation counter for fresh ids.
pub struct UidRegistry {
    pub entries: Vec<UidEntry>,
    pub next_id: i64,
}

impl UidRegistry {
    /// Well-formedness: ids are non-negative, pairwise distinct, and all
    /// below the allocation counter, so a freshly allocated id never
    /// collides with a registered one.
    pub open spec fn wf(self) -> bool {
        &&& 0 <= self.next_id
        &&& forall|i: int|
            0 <= i < self.entries.len() ==> 0 <= #[trigger] self.entries[i].uid
                < self.next_id
        &&& forall|i: int, j: int|
            0 <= i < j < self.entries.len() ==> #[trigger] self.entries[i].uid
                != #[trigger] self.entries[j].uid
    }

    /// True when `uid` is registered.
    pub open spec fn spec_has_id(self, uid: int) -> bool {
        exists|i: int| 0 <= i < self.entries.len() && #[trigger] self.entries[i].uid == uid
    }

    /// The canonical path of a registered `uid`.
    pub open spec fn spec_id_path(self, uid: int) -> Seq<char> {
        self.entries[choose|i: int|
            0 <= i < self.entries.len() && #[trigger] self.entries[i].uid == uid].path@
    }

    /// True while the registry can still allocate a fresh id.
    pub open spec fn has_capacity(self) -> bool {
        self.next_id < i64::MAX
    }

    /// An empty registry.
    pub fn new() -> (r: Self)
        ensures
            r.wf(),
            r.has_capacity(),
            forall|u: int| !r.spec_has_id(u),
    {
        UidRegistry { entries: Vec::new(), next_id: 0 }
    }

    /// Allocates a fresh id, registered to no path yet.
    pub fn create_id(&mut self) -> (r: i64)
        requires
            old(self).wf(),
            old(self).has_capacity(),
        ensures
            final(self).wf(),
            0 <= r,
            r == old(self).next_id,
            final(self).next_id == old(self).next_id + 1,
            final(self).entries == old(self).entries,
            !old(self).spec_has_id(r as int),
            forall|u: int| final(self).spec_has_id(u) == old(self).spec_has_id(u),
            forall|u: int|
                old(self).spec_has_id(u) ==> final(self).spec_id_path(u) == old(self).spec_id_path(u),
    {
        let r = self.next_id;
        self.next_id = self.next_id + 1;
        proof {
            let oldr = *old(self);
            if oldr.spec_has_id(r as int) {
                let i = choose|i: int|
                    0 <= i < oldr.entries.len() && #[trigger] oldr.entries[i].uid == r as int;
                assert(false);
            }
            assert forall|u: int| self.spec_has_id(u) == oldr.spec_has_id(u) by {
                if oldr.spec_has_id(u) {
                    let i = choose|i: int|
                        0 <= i < oldr.entries.len() && #[trigger] oldr.entries[i].uid == u;
                    assert(self.entries[i].uid == u);
                }
                if self.spec_has_id(u) {
                    let i = choose|i: int|
                        0 <= i < self.entries.len() && #[trigger] self.entries[i].uid == u;
                    assert(oldr.entries[i].uid == u);
                }
            }
            assert forall|u: int| oldr.spec_has_id(u) implies self.spec_id_path(u)
                == oldr.spec_id_path(u) by {
                let i = choose|i: int|
                    0 <= i < oldr.entries.len() && #[trigger] oldr.entries[i].uid == u;
                lemma_id_path_is(oldr, u, i);
                assert(self.entries[i].uid == u);
                lemma_id_path_is(*self, u, i);
            }
        }
        r
    }

    /// True when `uid` is registered.
    pub fn has_id(&self, uid: i64) -> (r: bool)
        ensures
            r == self.spec_has_id(uid as int),
    {
        let mut i: usize = 0;
        while i < self.entries.len()
            invariant
                i <= self.entries.len(),
                forall|j: int| 0 <= j < i ==> #[trigger] self.entries[j].uid != uid,
            decreases self.entries.len() - i,
        {
            if self.entries[i].uid == uid {
                return true;
            }
            i += 1;
        }
        false
    }

    /// The canonical path of a registered `uid`.
    pub fn get_id_path(&self, uid: i64) -> (r: String)
        requires
            self.wf(),
            self.spec_has_id(uid as int),
        ensures
            r@ == self.spec_id_path(uid as int),
    {
        let mut i: usize = 0;
        while i < self.entries.len()
            invariant
                self.wf(),
                self.spec_has_id(uid as int),
                i <= self.entries.len(),
                forall|j: int| 0 <= j < i ==> #[trigger] self.entries[j].uid != uid,
            decreases self.entries.len() - i,
        {
            if self.entries[i].uid == uid {
                proof {
                    lemma_id_path_is(*self, uid as int, i as int);
                }
                return self.entries[i].path.clone();
            }
            i += 1;
        }
        proof {
            assert(false);
        }
        String::new()
    }


    /// Registers a fresh `uid` under `path`.  Only unregistered,
    /// non-negative ids may be added.
    pub fn add_id(&mut self, uid: i64, path: String)
        requires
            old(self).wf(),
            !old(self).spec_has_id(uid as int),
            0 <= uid,
            uid < i64::MAX,
        ensures
            final(self).wf(),
            final(self).spec_has_id(uid as int),
            final(self).spec_id_path(uid as int) == path@,
            final(self).next_id as int == if uid >= old(self).next_id {
                uid + 1 as int
            } else {
                old(self).next_id as int
            },
            forall|u: int|
                u != uid ==> final(self).spec_has_id(u) == old(self).spec_has_id(u),
            forall|u: int|
                u != uid && old(self).spec_has_id(u) ==> final(self).spec_id_path(u)
                    == old(self).spec_id_path(u),
    {
        if uid >= self.next_id {
            self.next_id = uid + 1;
        }
        self.entries.push(UidEntry { uid, path });
        proof {
            let oldr = *old(self);
            let n = self.entries.len() - 1;
            assert(self.entries@ =~= oldr.entries@.push(self.entries@[n as int]));
            assert(self.entries[n as int].uid == uid);
            assert forall|i: int| 0 <= i < n implies #[trigger] self.entries[i].uid != uid by {
                if self.entries[i].uid == uid {
                    assert(oldr.entries[i].uid == uid);
                    assert(oldr.spec_has_id(uid as int));
                }
            }
            assert(self.wf());
            lemma_id_path_is(*self, uid as int, n as int);
            assert forall|u: int|
                u != uid && oldr.spec_has_id(u) implies self.spec_has_id(u)
                    && self.spec_id_path(u) == oldr.spec_id_path(u) by {
                let i = choose|i: int|
                    0 <= i < oldr.entries.len() && #[trigger] oldr.entries[i].uid == u;
                assert(self.entries[i].uid == u);
                lemma_id_path_is(oldr, u, i);
                lemma_id_path_is(*self, u, i);
            }
            assert forall|u: int| u != uid && self.spec_has_id(u) implies oldr.spec_has_id(
                u,
            ) by {
                let i = choose|i: int|
                    0 <= i < self.entries.len() && #[trigger] self.entries[i].uid == u;
                assert(i < n);
                assert(oldr.entries[i].uid == u);
            }
        }
    }

    /// Rebinds a registered `uid` to a new canonical path.
    pub fn set_id(&mut self, uid: i64, path: String)
        requires
            old(self).wf(),
            old(self).spec_has_id(uid as int),
        ensures
            final(self).wf(),
            final(self).spec_has_id(uid as int),
            final(self).spec_id_path(uid as int) == path@,
            forall|u: int| final(self).spec_has_id(u) == old(self).spec_has_id(u),
            forall|u: int|
                u != uid && old(self).spec_has_id(u) ==> final(self).spec_id_path(u)
                    == old(self).spec_id_path(u),
            final(self).has_capacity() == old(self).has_capacity(),
            final(self).next_id == old(self).next_id,
    {
        let mut i: usize = 0;
        while i < self.entries.len()
            invariant
                old(self).wf(),
                *self == *old(self),
                old(self).spec_has_id(uid as int),
                i <= self.entries.len(),
                forall|j: int| 0 <= j < i ==> #[trigger] self.entries[j].uid != uid,
            decreases self.entries.len() - i,
        {
            if self.entries[i].uid == uid {
                let entry = UidEntry { uid, path };
                self.entries.set(i, entry);
                proof {
                    let oldr = *old(self);
                    assert(self.entries[i as int].uid == uid);
                    assert forall|j: int|
                        0 <= j < self.entries.len() && j != i implies #[trigger] self.entries[j]
                            == oldr.entries[j] by {}
                    assert(self.wf());
                    lemma_id_path_is(*self, uid as int, i as int);
                    assert forall|u: int| self.spec_has_id(u) == oldr.spec_has_id(u) by {
                        if oldr.spec_has_id(u) {
                            let j = choose|j: int|
                                0 <= j < oldr.entries.len() && #[trigger] oldr.entries[j].uid
                                    == u;
                            if j == i {
                                assert(u == uid);
                                assert(self.entries[i as int].uid == u);
                            } else {
                                assert(self.entries[j].uid == u);
                            }
                        }
                        if self.spec_has_id(u) {
                            let j = choose|j: int|
                                0 <= j < self.entries.len() && #[trigger] self.entries[j].uid
                                    == u;
                            if j == i {
                                assert(oldr.entries[i as int].uid == u);
                            } else {
                                assert(oldr.entries[j].uid == u);
                            }
                        }
                    }
                    assert forall|u: int|
                        u != uid && oldr.spec_has_id(u) implies self.spec_id_path(u)
                            == oldr.spec_id_path(u) by {
                        let j = choose|j: int|
                            0 <= j < oldr.entries.len() && #[trigger] oldr.entries[j].uid == u;
                        assert(j != i);
                        assert(self.entries[j].uid == u);
                        lemma_id_path_is(oldr, u, j);
                        lemma_id_path_is(*self, u, j);
                    }
                }
                return;
            }
            i += 1;
        }
        proof {
            assert(false);
        }
    }

    /// Unregisters a registered `uid`.
    pub fn remove_id(&mut self, uid: i64)
        requires
            old(self).wf(),
            old(self).spec_has_id(uid as int),
        ensures
            final(self).wf(),
            !final(self).spec_has_id(uid as int),
            forall|u: int|
                u != uid ==> final(self).spec_has_id(u) == old(self).spec_has_id(u),
            forall|u: int|
                u != uid && old(self).spec_has_id(u) ==> final(self).spec_id_path(u)
                    == old(self).spec_id_path(u),
            final(self).has_capacity() == old(self).has_capacity(),
            final(self).next_id == old(self).next_id,
    {
        let mut i: usize = 0;
        while i < self.entries.len()
            invariant
                old(self).wf(),
                *self == *old(self),
                old(self).spec_has_id(uid as int),
                i <= self.entries.len(),
                forall|j: int| 0 <= j < i ==> #[trigger] self.entries[j].uid != uid,
            decreases self.entries.len() - i,
        {
            if self.entries[i].uid == uid {
                self.entries.remove(i);
                proof {
                    let oldr = *old(self);
                    let oldv = oldr.entries@;
                    let newv = self.entries@;
                    assert(newv =~= oldv.subrange(0, i as int) + oldv.subrange(
                        i + 1,
                        oldv.len() as int,
                    ));
                    assert forall|j: int|
                        0 <= j < newv.len() implies #[trigger] newv[j] == (if j < i {
                            oldv[j]
                        } else {
                            oldv[j + 1]
                        }) by {}
                    assert(self.wf());
                    if self.spec_has_id(uid as int) {
                        let j = choose|j: int|
                            0 <= j < newv.len() && #[trigger] self.entries[j].uid
                                == uid as int;
                        if j < i {
                            assert(oldv[j].uid == uid);
                        } else {
                            assert(oldv[j + 1].uid == uid);
                        }
                        assert(false);
                    }
                    assert forall|u: int|
                        u != uid && oldr.spec_has_id(u) implies self.spec_has_id(u)
                            && self.spec_id_path(u) == oldr.spec_id_path(u) by {
                        let j = choose|j: int|
                            0 <= j < oldv.len() && #[trigger] oldr.entries[j].uid == u;
                        assert(j != i);
                        if j < i {
                            assert(self.entries[j].uid == u);
                            lemma_id_path_is(oldr, u, j);
                            lemma_id_path_is(*self, u, j);
                        } else {
                            assert(self.entries[j - 1].uid == u);
                            lemma_id_path_is(oldr, u, j);
                            lemma_id_path_is(*self, u, j - 1);
                        }
                    }
                    assert forall|u: int| u != uid && self.spec_has_id(u) implies oldr
                        .spec_has_id(u) by {
                        let j = choose|j: int|
                            0 <= j < newv.len() && #[trigger] self.entries[j].uid == u;
                        if j < i {
                            assert(oldr.entries[j].uid == u);
                        } else {
                            assert(oldr.entries[j + 1].uid == u);
                        }
                    }
                }
                return;
            }
            i += 1;
        }
        proof {
            assert(false);
        }
    }

    /// The first registered id bound to `path`, or `-1` when no id is.
    pub fn get_path_uid(&self, path: &String) -> (r: i64)
        requires
            self.wf(),
        ensures
            r != -1 ==> self.spec_has_id(r as int) && self.spec_id_path(r as int)
                == path@,
            r == -1 ==> forall|u: int|
                self.spec_has_id(u) ==> #[trigger] self.spec_id_path(u) != path@,
            r >= -1,
    {
        let mut i: usize = 0;
        while i < self.entries.len()
            invariant
                self.wf(),
                i <= self.entries.len(),
                forall|j: int| 0 <= j < i ==> #[trigger] self.entries[j].path@ != path@,
            decreases self.entries.len() - i,
        {
            if self.entries[i].path.eq(path) {
                proof {
                    lemma_id_path_is(*self, self.entries[i as int].uid as int, i as int);
                }
                return self.entries[i].uid;
            }
            i += 1;
        }
        proof {
            assert forall|u: int| self.spec_has_id(u) implies #[trigger] self.spec_id_path(u)
                != path@ by {
                let j = choose|j: int|
                    0 <= j < self.entries.len() && #[trigger] self.entries[j].uid == u;
                lemma_id_path_is(*self, u, j);
            }
        }
        -1
    }
}

/// Under well-formedness, the canonical path of `uid` is the path stored at
/// any index holding `uid`.
pub proof fn lemma_id_path_is(r: UidRegistry, uid: int, i: int)
    requires
        r.wf(),
        0 <= i < r.entries.len(),
        r.entries[i].uid == uid,
    ensures
        r.spec_has_id(uid),
        r.spec_id_path(uid) == r.entries[i].path@,
{
    assert(r.spec_has_id(uid));
    let j = choose|j: int| 0 <= j < r.entries.len() && #[trigger] r.entries[j].uid == uid;
    if i != j {
        if i < j {
            assert(r.entries[i].uid != r.entries[j].uid);
        } else {
            assert(r.entries[j].uid != r.entries[i].uid);
        }
        assert(false);
    }
}

} // verus!
