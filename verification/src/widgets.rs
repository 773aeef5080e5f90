use vstd::prelude::*;

use crate::text::{signed_decimal, wide_signed_to_text};
use vstd::string::StrSliceExecFns;

verus! {

/// Orientation of a splitter.
#[derive(Debug, Clone, Copy, PartialEq, Eq, Structural)]
pub enum Orientation {
    Horizontal,
    Vertical,
}

/// The connection of a client to the server.
#[derive(Debug, Clone, Copy, PartialEq, Eq, Structural)]
pub enum ConnectionState {
    /// No connection has been established or a connection attempt is pending.
    NotConnected,
    /// The connection is established and states are synchronized.
    Connected,
    /// A previously active connection ended.
    Disconnected,
}

/// The value of the ASCII decimal digit `c`, or `None` for any other
/// character.
pub open spec fn digit_of(c: char) -> Option<int> {
    if c == '0' {
        Some(0)
    } else if c == '1' {
        Some(1)
    } else if c == '2' {
        Some(2)
    } else if c == '3' {
        Some(3)
    } else if c == '4' {
        Some(4)
    } else if c == '5' {
        Some(5)
    } else if c == '6' {
        Some(6)
    } else if c == '7' {
        Some(7)
    } else if c == '8' {
        Some(8)
    } else if c == '9' {
        Some(9)
    } else {
        None
    }
}

/// The value of a run of decimal digits, most significant first.
pub open spec fn digits_value(s: Seq<char>) -> int
    decreases s.len(),
{
    if s.len() == 0 {
        0
    } else {
        digits_value(s.drop_last()) * 10 + digit_of(s.last())->0
    }
}

/// The integer type that a wheel box edits.
#[derive(Debug, Clone, Copy, PartialEq, Eq, Structural)]
pub enum IntKind {
    I32,
    I64,
    U32,
    U64,
}

/// The smallest value of the type.
pub open spec fn kind_min(kind: IntKind) -> int {
    match kind {
        IntKind::I32 => i32::MIN as int,
        IntKind::I64 => i64::MIN as int,
        IntKind::U32 => 0,
        IntKind::U64 => 0,
    }
}

/// The largest value of the type.
pub open spec fn kind_max(kind: IntKind) -> int {
    match kind {
        IntKind::I32 => i32::MAX as int,
        IntKind::I64 => i64::MAX as int,
        IntKind::U32 => u32::MAX as int,
        IntKind::U64 => u64::MAX as int,
    }
}

/// Whether `v` is a value of the type.
pub open spec fn kind_fits(kind: IntKind, v: int) -> bool {
    kind_min(kind) <= v <= kind_max(kind)
}

/// Whether the type has negative values.
pub open spec fn kind_signed(kind: IntKind) -> bool {
    kind is I32 || kind is I64
}

impl IntKind {
    /// Whether `v` is a value of the type.
    pub fn contains(&self, v: i128) -> (r: bool)
        ensures
            r == kind_fits(*self, v as int),
    {
        match self {
            IntKind::I32 => -2147483648i128 <= v && v <= 2147483647i128,
            IntKind::I64 => -9223372036854775808i128 <= v && v <= 9223372036854775807i128,
            IntKind::U32 => 0 <= v && v <= 4294967295i128,
            IntKind::U64 => 0 <= v && v <= 18446744073709551615i128,
        }
    }
}

/// What parsing text as an integer of the type gives: an optional `+` (or
/// `-`, for a signed type), then one or more ASCII digits, whose value with
/// that sign is a value of the type; `None` for any other text.
pub open spec fn parsed_int(text: Seq<char>, kind: IntKind) -> Option<int> {
    let signed = text.len() > 0 && (text[0] == '+' || (text[0] == '-' && kind_signed(kind)));
    let digits = if signed {
        text.drop_first()
    } else {
        text
    };
    let magnitude = digits_value(digits);
    let v = if signed && text[0] == '-' {
        -magnitude
    } else {
        magnitude
    };
    if digits.len() > 0 && all_digits(digits) && kind_fits(kind, v) {
        Some(v)
    } else {
        None
    }
}

/// The value of the ASCII decimal digit `c` (see [`digit_of`]).
fn digit(c: char) -> (r: Option<i128>)
    ensures
        match digit_of(c) {
            Some(d) => r == Some(d as i128),
            None => r is None,
        },
{
    if c == '0' {
        Some(0)
    } else if c == '1' {
        Some(1)
    } else if c == '2' {
        Some(2)
    } else if c == '3' {
        Some(3)
    } else if c == '4' {
        Some(4)
    } else if c == '5' {
        Some(5)
    } else if c == '6' {
        Some(6)
    } else if c == '7' {
        Some(7)
    } else if c == '8' {
        Some(8)
    } else if c == '9' {
        Some(9)
    } else {
        None
    }
}

/// Whether every character of `s` is a decimal digit.
pub open spec fn all_digits(s: Seq<char>) -> bool {
    forall|i: int| 0 <= i < s.len() ==> #[trigger] digit_of(s[i]) is Some
}

proof fn lemma_digit_range(c: char)
    ensures
        digit_of(c) matches Some(d) ==> 0 <= d <= 9,
{
}

/// A run of digits is worth at least any run of digits it starts with.
proof fn lemma_digits_prefix(s: Seq<char>, k: int)
    requires
        all_digits(s),
        0 <= k <= s.len(),
    ensures
        0 <= digits_value(s.subrange(0, k)) <= digits_value(s),
    decreases s.len(),
{
    if k == s.len() {
        assert(s.subrange(0, k) =~= s);
        if s.len() > 0 {
            lemma_digits_prefix(s.drop_last(), 0);
            lemma_digit_range(s.last());
        } else {
            assert(digits_value(s) == 0);
        }
    } else {
        let t = s.drop_last();
        assert(all_digits(t)) by {
            assert forall|i: int| 0 <= i < t.len() implies #[trigger] digit_of(t[i]) is Some by {
                assert(t[i] == s[i]);
            }
        }
        lemma_digits_prefix(t, k);
        assert(t.subrange(0, k) =~= s.subrange(0, k));
        lemma_digit_range(s.last());
        assert(digit_of(s[s.len() - 1]) is Some);
    }
}

/// The number that `text` writes as an integer of the type (see
/// [`parsed_int`]), or `None`.
pub fn parse_int(text: &str, kind: IntKind) -> (r: Option<i128>)
    ensures
        match parsed_int(text@, kind) {
            Some(v) => r == Some(v as i128),
            None => r is None,
        },
{
    let n = text.unicode_len();
    if n == 0 {
        return None;
    }
    let first = text.get_char(0);
    let signed_kind = match kind {
        IntKind::I32 | IntKind::I64 => true,
        IntKind::U32 | IntKind::U64 => false,
    };
    let signed = first == '+' || (first == '-' && signed_kind);
    let negative = signed && first == '-';
    let start: usize = if signed {
        1
    } else {
        0
    };
    let ghost digits = text@.subrange(start as int, n as int);
    proof {
        assert(first == text@[0]);
        assert(signed == (text@[0] == '+' || (text@[0] == '-' && kind_signed(kind))));
        if signed {
            assert(digits =~= text@.drop_first());
        } else {
            assert(digits =~= text@);
        }
    }
    if start >= n {
        return None;
    }
    let limit: i128 = match kind {
        IntKind::I32 => if negative {
            2147483648
        } else {
            2147483647
        },
        IntKind::I64 => if negative {
            9223372036854775808
        } else {
            9223372036854775807
        },
        IntKind::U32 => 4294967295,
        IntKind::U64 => 18446744073709551615,
    };
    let mut magnitude: i128 = 0;
    let mut i: usize = start;
    proof {
        assert(digits.subrange(0, 0) =~= Seq::<char>::empty());
    }
    while i < n
        invariant
            start <= i <= n,
            n == text@.len(),
            digits == text@.subrange(start as int, n as int),
            0 <= limit <= 18446744073709551615,
            limit == if negative {
                -kind_min(kind)
            } else {
                kind_max(kind)
            },
            text@.len() > 0,
            signed == (text@[0] == '+' || (text@[0] == '-' && kind_signed(kind))),
            negative == (signed && text@[0] == '-'),
            digits == if signed {
                text@.drop_first()
            } else {
                text@
            },
            0 <= magnitude <= limit,
            all_digits(digits.subrange(0, i - start)),
            magnitude == digits_value(digits.subrange(0, i - start)),
        decreases n - i,
    {
        let c = text.get_char(i);
        proof {
            assert(c == digits[i - start]);
            lemma_digit_range(c);
        }
        let d = match digit(c) {
            Some(d) => d,
            None => {
                proof {
                    assert(!all_digits(digits));
                    assert(parsed_int(text@, kind) is None);
                }
                return None;
            },
        };
        let next = magnitude * 10 + d;
        let ghost prefix = digits.subrange(0, i + 1 - start);
        proof {
            assert(prefix.drop_last() =~= digits.subrange(0, i - start));
            assert(prefix.last() == c);
            assert(all_digits(prefix)) by {
                assert forall|j: int| 0 <= j < prefix.len() implies #[trigger] digit_of(prefix[j]) is Some by {
                    if j < prefix.len() - 1 {
                        assert(prefix[j] == digits.subrange(0, i - start)[j]);
                    }
                }
            }
        }
        if next > limit {
            proof {
                assert(digits_value(prefix) == next);
                assert(limit == if negative {
                    -kind_min(kind)
                } else {
                    kind_max(kind)
                });
                if all_digits(digits) {
                    assert(digits.subrange(0, i + 1 - start) == prefix);
                    lemma_digits_prefix(digits, i + 1 - start);
                    assert(digits_value(digits) > limit);
                }
                assert(parsed_int(text@, kind) is None);
            }
            return None;
        }
        magnitude = next;
        i += 1;
    }
    proof {
        assert(digits.subrange(0, n - start) =~= digits);
    }
    if negative {
        Some(0 - magnitude)
    } else {
        Some(magnitude)
    }
}

/// `v` clamped to `[lo, hi]`.
pub open spec fn clamped(v: int, lo: int, hi: int) -> int {
    if v < lo {
        lo
    } else if v > hi {
        hi
    } else {
        v
    }
}

/// Half a step, never less than one.
pub open spec fn half_step(step: int) -> int {
    if step >= 2 {
        step / 2
    } else {
        1
    }
}

/// The step after the step keys: `q` halves it (never below one), then `w`
/// doubles it, then `r` resets it to the default.
pub open spec fn step_after_keys(step: int, keys: WheelKeys, default: int) -> int {
    let a = if keys.q {
        half_step(step)
    } else {
        step
    };
    let b = if keys.w {
        2 * a
    } else {
        a
    };
    if keys.r {
        default
    } else {
        b
    }
}

/// Keys pressed while a wheel box has the focus.
#[derive(Debug, Clone, Copy)]
pub struct WheelKeys {
    /// halve the step
    pub q: bool,
    /// double the step
    pub w: bool,
    /// reset the step
    pub r: bool,
    /// one step up
    pub up: bool,
    /// one step down
    pub down: bool,
}

/// The state of an integer wheel box: the type of its value, the value
/// shown, its text, and the step of the arrows and the wheel.
#[derive(Debug, Clone)]
pub struct WheelBoxState {
    kind: IntKind,
    state_value: i128,
    string: String,
    single_step: i128,
}

impl WheelBoxState {
    pub closed spec fn spec_kind(&self) -> IntKind {
        self.kind
    }

    pub closed spec fn spec_value(&self) -> int {
        self.state_value as int
    }

    pub closed spec fn spec_text(&self) -> Seq<char> {
        self.string@
    }

    pub closed spec fn spec_step(&self) -> int {
        self.single_step as int
    }

    /// The value and the step are values of the type, and the text shows the
    /// value.
    pub closed spec fn wf(&self) -> bool {
        &&& kind_fits(self.kind, self.state_value as int)
        &&& kind_fits(self.kind, self.single_step as int)
        &&& self.string@ == signed_decimal(self.state_value as int)
    }

    /// A state showing `value`.
    pub fn new(kind: IntKind, value: i128, single_step: i128) -> (s: Self)
        requires
            kind_fits(kind, value as int),
            kind_fits(kind, single_step as int),
        ensures
            s.wf(),
            s.spec_kind() == kind,
            s.spec_value() == value,
            s.spec_text() == signed_decimal(value as int),
            s.spec_step() == single_step,
    {
        WheelBoxState { kind, state_value: value, string: wide_signed_to_text(value), single_step }
    }

    /// Shows `value`.
    pub fn set_value(&mut self, value: i128)
        requires
            old(self).wf(),
            kind_fits(old(self).spec_kind(), value as int),
        ensures
            final(self).wf(),
            final(self).spec_kind() == old(self).spec_kind(),
            final(self).spec_value() == value,
            final(self).spec_text() == signed_decimal(value as int),
            final(self).spec_step() == old(self).spec_step(),
    {
        self.state_value = value;
        self.string = wide_signed_to_text(value);
    }

    /// The type of the value.
    pub fn kind(&self) -> (r: IntKind)
        ensures
            r == self.spec_kind(),
    {
        self.kind
    }

    /// The value shown.
    pub fn value(&self) -> (r: i128)
        ensures
            r == self.spec_value(),
    {
        self.state_value
    }

    /// The text typed into the focused box replaces the one shown; the value
    /// stays until the text is committed.
    pub fn set_text(&mut self, text: String)
        ensures
            final(self).spec_text() == text@,
            final(self).spec_kind() == old(self).spec_kind(),
            final(self).spec_value() == old(self).spec_value(),
            final(self).spec_step() == old(self).spec_step(),
    {
        self.string = text;
    }

    /// The text shown.
    pub fn text(&self) -> (r: &str)
        ensures
            r@ == self.spec_text(),
    {
        self.string.as_str()
    }

    /// The step kept by the state.
    pub fn step(&self) -> (r: i128)
        ensures
            r == self.spec_step(),
    {
        self.single_step
    }

    /// Applies the step keys to the state's own step and returns it.
    pub fn apply_step_keys(&mut self, keys: WheelKeys, default: i128) -> (r: i128)
        requires
            old(self).wf(),
            kind_fits(old(self).spec_kind(), default as int),
            keys.w ==> kind_fits(old(self).spec_kind(), 2 * keys_base(old(self).spec_step(), keys)),
        ensures
            final(self).wf(),
            r == step_after_keys(old(self).spec_step(), keys, default as int),
            final(self).spec_step() == r,
            final(self).spec_kind() == old(self).spec_kind(),
            final(self).spec_value() == old(self).spec_value(),
            final(self).spec_text() == old(self).spec_text(),
    {
        let s = adjust_step(self.kind, self.single_step, keys, default);
        self.single_step = s;
        s
    }

    /// The text typed into the focused box is committed: a number of the
    /// box's type is taken (clamped to `range`) and `value` becomes it;
    /// otherwise the box shows `value` again. Returns whether `value` changed.
    pub fn commit_text(&mut self, value: &mut i128, range: Option<[i128; 2]>) -> (changed: bool)
        requires
            old(self).wf(),
            kind_fits(old(self).spec_kind(), *old(value) as int),
            range matches Some(r) ==> r[0] <= r[1] && kind_fits(old(self).spec_kind(), r[0] as int) && kind_fits(
                old(self).spec_kind(),
                r[1] as int,
            ),
        ensures
            final(self).wf(),
            final(self).spec_kind() == old(self).spec_kind(),
            final(self).spec_step() == old(self).spec_step(),
            commit_post(parsed_int(old(self).spec_text(), old(self).spec_kind()), *old(value), range, *final(value), changed),
            final(self).spec_value() == *final(value),
    {
        let parsed = parse_int(self.string.as_str(), self.kind);
        self.commit_parsed(parsed, value, range)
    }

    /// Commits text whose parse gave `parsed` (see [`Self::commit_text`]).
    pub fn commit_parsed(&mut self, parsed: Option<i128>, value: &mut i128, range: Option<[i128; 2]>) -> (changed: bool)
        requires
            old(self).wf(),
            kind_fits(old(self).spec_kind(), *old(value) as int),
            parsed matches Some(p) ==> kind_fits(old(self).spec_kind(), p as int),
            range matches Some(r) ==> r[0] <= r[1] && kind_fits(old(self).spec_kind(), r[0] as int) && kind_fits(
                old(self).spec_kind(),
                r[1] as int,
            ),
        ensures
            final(self).wf(),
            final(self).spec_kind() == old(self).spec_kind(),
            final(self).spec_step() == old(self).spec_step(),
            commit_post(
                match parsed {
                    Some(p) => Some(p as int),
                    None => None,
                },
                *old(value),
                range,
                *final(value),
                changed,
            ),
            final(self).spec_value() == *final(value),
    {
        match parsed {
            Some(v) => {
                let v = match range {
                    Some(r) => clamp_wide(v, r[0], r[1]),
                    None => v,
                };
                *value = v;
                self.set_value(v);
                true
            },
            None => {
                let v = *value;
                self.set_value(v);
                false
            },
        }
    }

    /// One step up or down from the arrow keys (up wins), kept within
    /// `range`, then the wheel's step (see [`wheel_delta`]), clamped to
    /// `range`. Returns the new value when the arrows or the wheel were used.
    pub fn arrows_and_wheel(
        &mut self,
        step: i128,
        up: bool,
        down: bool,
        wheel: Option<i64>,
        range: Option<[i128; 2]>,
    ) -> (res: Option<i128>)
        requires
            old(self).wf(),
            kind_fits(old(self).spec_kind(), step as int),
            range matches Some(r) ==> r[0] <= r[1] && kind_fits(old(self).spec_kind(), r[0] as int) && kind_fits(
                old(self).spec_kind(),
                r[1] as int,
            ),
            up ==> kind_fits(old(self).spec_kind(), old(self).spec_value() + step),
            !up && down ==> kind_fits(old(self).spec_kind(), old(self).spec_value() - step),
            wheel matches Some(d) ==> kind_fits(
                old(self).spec_kind(),
                arrows_value(old(self).spec_value(), step as int, up, down, range) + wheel_delta(old(self).spec_kind(), d as int, step as int),
            ),
        ensures
            final(self).wf(),
            !(up || down || wheel is Some) ==> final(self).spec_text() == old(self).spec_text(),
            final(self).spec_kind() == old(self).spec_kind(),
            final(self).spec_step() == old(self).spec_step(),
            ({
                let a = arrows_value(old(self).spec_value(), step as int, up, down, range);
                let v = match wheel {
                    Some(d) => match range {
                        Some(r) => clamped(a + wheel_delta(old(self).spec_kind(), d as int, step as int), r[0] as int, r[1] as int),
                        None => a + wheel_delta(old(self).spec_kind(), d as int, step as int),
                    },
                    None => a,
                };
                &&& final(self).spec_value() == v
                &&& res == if up || down || wheel is Some {
                    Some(v as i128)
                } else {
                    None::<i128>
                }
            }),
    {
        let mut moved: Option<i128> = None;
        if up {
            let mut v = self.state_value + step;
            if let Some(r) = range {
                if v > r[1] {
                    v = r[1];
                }
            }
            self.set_value(v);
            moved = Some(v);
        } else if down {
            let mut v = self.state_value - step;
            if let Some(r) = range {
                if v < r[0] {
                    v = r[0];
                }
            }
            self.set_value(v);
            moved = Some(v);
        }
        if let Some(d) = wheel {
            let signed = match self.kind {
                IntKind::I32 | IntKind::I64 => true,
                IntKind::U32 | IntKind::U64 => false,
            };
            let mut v = if d > 0 {
                self.state_value + step
            } else if d < 0 && signed {
                self.state_value - step
            } else {
                self.state_value
            };
            if let Some(r) = range {
                v = clamp_wide(v, r[0], r[1]);
            }
            self.set_value(v);
            moved = Some(v);
        }
        moved
    }
}

/// What the wheel adds: the step times its direction (one of -1, 0 and 1
/// by sign), where a type without negative values takes a downward direction
/// as 0, so the wheel only moves it up.
pub open spec fn wheel_delta(kind: IntKind, direction: int, step: int) -> int {
    if direction > 0 {
        step
    } else if direction < 0 && kind_signed(kind) {
        -step
    } else {
        0
    }
}

/// The value after the arrow keys: one step up (at most the range's top) or
/// else one step down (at least the range's bottom).
pub open spec fn arrows_value(value: int, step: int, up: bool, down: bool, range: Option<[i128; 2]>) -> int {
    if up {
        match range {
            Some(r) => if value + step > r[1] {
                r[1] as int
            } else {
                value + step
            },
            None => value + step,
        }
    } else if down {
        match range {
            Some(r) => if value - step < r[0] {
                r[0] as int
            } else {
                value - step
            },
            None => value - step,
        }
    } else {
        value
    }
}

/// Committing text whose parse gave `parsed` turns `value` into `new_value`:
/// a number clamped to the range, or the old value; `changed` tells which.
pub open spec fn commit_post(parsed: Option<int>, value: i128, range: Option<[i128; 2]>, new_value: i128, changed: bool) -> bool {
    match parsed {
        Some(v) => changed && new_value == match range {
            Some(r) => clamped(v, r[0] as int, r[1] as int),
            None => v,
        },
        None => !changed && new_value == value,
    }
}

fn clamp_wide(v: i128, lo: i128, hi: i128) -> (r: i128)
    requires
        lo <= hi,
    ensures
        r == clamped(v as int, lo as int, hi as int),
{
    if v < lo {
        lo
    } else if v > hi {
        hi
    } else {
        v
    }
}

/// The step that the step keys double: the step, halved first when `q` came
/// too.
pub open spec fn keys_base(step: int, keys: WheelKeys) -> int {
    if keys.q {
        half_step(step)
    } else {
        step
    }
}

/// The step after the step keys (see [`step_after_keys`]), for a box whose
/// value has the type `kind`.
pub fn adjust_step(kind: IntKind, step: i128, keys: WheelKeys, default: i128) -> (r: i128)
    requires
        kind_fits(kind, step as int),
        kind_fits(kind, default as int),
        keys.w ==> kind_fits(kind, 2 * keys_base(step as int, keys)),
    ensures
        r == step_after_keys(step as int, keys, default as int),
        kind_fits(kind, r as int),
{
    let mut s = step;
    if keys.q {
        s = if s >= 2 {
            s / 2
        } else {
            1
        };
    }
    if keys.w {
        s = s * 2;
    }
    if keys.r {
        s = default;
    }
    s
}

/// A committed number always lies within the box's range.
pub proof fn lemma_commit_within_range(parsed: Option<int>, value: i128, lo: i128, hi: i128, new_value: i128, changed: bool)
    requires
        lo <= hi,
        commit_post(parsed, value, Some([lo, hi]), new_value, changed),
        changed,
    ensures
        lo <= new_value <= hi,
{
}

} // verus!
