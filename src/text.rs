//! Character classes and the room-name sanitizer.

use vstd::prelude::*;
use vstd::string::StrSliceExecFns;

verus! {

/// Longest room name kept, in characters.
pub const MAX_ROOM_NAME_LENGTH: usize = 50;

/// The general category Cc of Unicode: what `char::is_control` accepts.
pub open spec fn is_control_char(c: char) -> bool {
    (c as u32) <= 0x1F || (0x7F <= (c as u32) && (c as u32) <= 0x9F)
}

/// The White_Space property of Unicode: what `char::is_whitespace` accepts.
pub open spec fn is_white_space(c: char) -> bool {
    let v = c as u32;
    (0x09 <= v && v <= 0x0D) || v == 0x20 || v == 0x85 || v == 0xA0 || v == 0x1680
        || (0x2000 <= v && v <= 0x200A) || v == 0x2028 || v == 0x2029 || v == 0x202F
        || v == 0x205F || v == 0x3000
}

/// `s` without its control characters, order kept.
pub open spec fn strip_controls(s: Seq<char>) -> Seq<char>
    decreases s.len(),
{
    if s.len() == 0 {
        seq![]
    } else if is_control_char(s.last()) {
        strip_controls(s.drop_last())
    } else {
        strip_controls(s.drop_last()).push(s.last())
    }
}

/// The first `MAX_ROOM_NAME_LENGTH` characters of `s`.
pub open spec fn cap_length(s: Seq<char>) -> Seq<char> {
    if s.len() <= MAX_ROOM_NAME_LENGTH {
        s
    } else {
        s.take(MAX_ROOM_NAME_LENGTH as int)
    }
}

/// `s` without its leading white space.
pub open spec fn trim_start(s: Seq<char>) -> Seq<char>
    decreases s.len(),
{
    if s.len() > 0 && is_white_space(s[0]) {
        trim_start(s.drop_first())
    } else {
        s
    }
}

/// `s` without its trailing white space.
pub open spec fn trim_end(s: Seq<char>) -> Seq<char>
    decreases s.len(),
{
    if s.len() > 0 && is_white_space(s.last()) {
        trim_end(s.drop_last())
    } else {
        s
    }
}

/// `s` without white space at either end, as `str::trim` gives it.
pub open spec fn trim(s: Seq<char>) -> Seq<char> {
    trim_end(trim_start(s))
}

/// The name given to a room whose requested name has nothing left.
pub open spec fn default_room_name() -> Seq<char> {
    seq!['N', 'e', 'w', ' ', 'R', 'o', 'o', 'm']
}

/// The stored form of a requested room name: control characters removed,
/// cut to the length cap, trimmed, and the default name where nothing is left.
pub open spec fn sanitized(s: Seq<char>) -> Seq<char> {
    let t = trim(cap_length(strip_controls(s)));
    if t.len() == 0 {
        default_room_name()
    } else {
        t
    }
}

pub fn is_control(c: char) -> (r: bool)
    ensures
        r == is_control_char(c),
{
    let v = c as u32;
    v <= 0x1F || (0x7F <= v && v <= 0x9F)
}

pub fn is_whitespace(c: char) -> (r: bool)
    ensures
        r == is_white_space(c),
{
    let v = c as u32;
    (0x09 <= v && v <= 0x0D) || v == 0x20 || v == 0x85 || v == 0xA0 || v == 0x1680 || (0x2000
        <= v && v <= 0x200A) || v == 0x2028 || v == 0x2029 || v == 0x202F || v == 0x205F || v
        == 0x3000
}

/// Relies on `String::push`: the character is appended at the end.
#[verifier::external_body]
fn push_char(s: &mut String, c: char)
    ensures
        final(s)@ == old(s)@.push(c),
{
    s.push(c);
}

proof fn lemma_cap_push(x: Seq<char>, c: char)
    ensures
        cap_length(x.push(c)) == if x.len() < MAX_ROOM_NAME_LENGTH {
            x.push(c)
        } else {
            cap_length(x)
        },
{
    if x.len() >= MAX_ROOM_NAME_LENGTH {
        assert(x.push(c).take(MAX_ROOM_NAME_LENGTH as int) =~= x.take(
            MAX_ROOM_NAME_LENGTH as int,
        ));
    }
}

/// The characters of `s` that are not control characters, at most `MAX_ROOM_NAME_LENGTH`.
fn kept_chars(s: &str) -> (r: Vec<char>)
    ensures
        r@ == cap_length(strip_controls(s@)),
{
    let n = s.unicode_len();
    let mut out: Vec<char> = Vec::new();
    let mut i: usize = 0;
    while i < n
        invariant
            n == s@.len(),
            i <= n,
            out@ == cap_length(strip_controls(s@.take(i as int))),
        decreases n - i,
    {
        let c = s.get_char(i);
        let ghost before = s@.take(i as int);
        assert(s@.take(i + 1).drop_last() =~= before);
        assert(s@.take(i + 1).last() == c);
        if !is_control(c) {
            proof {
                lemma_cap_push(strip_controls(before), c);
            }
            if out.len() < MAX_ROOM_NAME_LENGTH {
                out.push(c);
            }
        }
        i = i + 1;
    }
    assert(s@.take(n as int) =~= s@);
    out
}

/// The bounds `[lo, hi)` of `v` once white space is taken off both ends.
pub(crate) fn trim_bounds(v: &Vec<char>) -> (r: (usize, usize))
    ensures
        r.0 <= r.1 <= v@.len(),
        v@.subrange(r.0 as int, r.1 as int) == trim(v@),
{
    let n = v.len();
    let mut lo: usize = 0;
    assert(v@.subrange(0, n as int) =~= v@);
    while lo < n && is_whitespace(v[lo])
        invariant
            lo <= n == v@.len(),
            trim_start(v@) == trim_start(v@.subrange(lo as int, n as int)),
        decreases n - lo,
    {
        assert(v@.subrange(lo as int, n as int).drop_first() =~= v@.subrange(
            lo + 1,
            n as int,
        ));
        lo = lo + 1;
    }
    let ghost t = v@.subrange(lo as int, n as int);
    assert(trim_start(v@) == t);
    let mut hi: usize = n;
    while hi > lo && is_whitespace(v[hi - 1])
        invariant
            lo <= hi <= n == v@.len(),
            t == v@.subrange(lo as int, n as int),
            trim_end(t) == trim_end(v@.subrange(lo as int, hi as int)),
        decreases hi - lo,
    {
        assert(v@.subrange(lo as int, hi as int).drop_last() =~= v@.subrange(
            lo as int,
            hi - 1,
        ));
        hi = hi - 1;
    }
    (lo, hi)
}

/// Sanitizes a requested room name: control characters are removed, the
/// name is cut to `MAX_ROOM_NAME_LENGTH` characters and trimmed, and
/// "New Room" stands in for a name with nothing left.
pub fn sanitize_room_name(name: &str) -> (r: String)
    ensures
        r@ == sanitized(name@),
{
    let kept = kept_chars(name);
    let (lo, hi) = trim_bounds(&kept);
    if lo == hi {
        let d = String::from_str("New Room");
        proof {
            reveal_strlit("New Room");
        }
        assert(d@ =~= default_room_name());
        return d;
    }
    string_of(&kept, lo, hi)
}

/// The characters `v[lo..hi]` as a string.
pub(crate) fn string_of(v: &Vec<char>, lo: usize, hi: usize) -> (r: String)
    requires
        lo <= hi <= v@.len(),
    ensures
        r@ == v@.subrange(lo as int, hi as int),
{
    let mut out = String::new();
    let mut i: usize = lo;
    while i < hi
        invariant
            lo <= i <= hi <= v@.len(),
            out@ == v@.subrange(lo as int, i as int),
        decreases hi - i,
    {
        push_char(&mut out, v[i]);
        assert(v@.subrange(lo as int, i + 1) =~= v@.subrange(lo as int, i as int).push(v@[i as int]));
        i = i + 1;
    }
    out
}

proof fn lemma_strip_controls_clean(s: Seq<char>)
    ensures
        forall|i: int| 0 <= i < strip_controls(s).len() ==> !is_control_char(
            #[trigger] strip_controls(s)[i],
        ),
        (forall|i: int| 0 <= i < s.len() ==> !is_control_char(#[trigger] s[i]))
            ==> strip_controls(s) == s,
    decreases s.len(),
{
    if s.len() > 0 {
        lemma_strip_controls_clean(s.drop_last());
        let r = strip_controls(s.drop_last());
        if !is_control_char(s.last()) {
            assert(forall|i: int| 0 <= i < r.len() ==> r.push(s.last())[i] == r[i]);
        }
        if forall|i: int| 0 <= i < s.len() ==> !is_control_char(#[trigger] s[i]) {
            assert(forall|i: int| 0 <= i < s.drop_last().len() ==> s.drop_last()[i] == s[i]);
            assert(!is_control_char(s[s.len() - 1]));
            assert(s.drop_last().push(s.last()) =~= s);
        }
    }
}

proof fn lemma_trim_start_suffix(s: Seq<char>)
    ensures
        trim_start(s) == s.subrange(s.len() - trim_start(s).len(), s.len() as int),
        trim_start(s).len() > 0 ==> !is_white_space(trim_start(s)[0]),
        trim_start(s).len() <= s.len(),
        (s.len() > 0 && !is_white_space(s[0])) ==> trim_start(s) == s,
    decreases s.len(),
{
    if s.len() > 0 && is_white_space(s[0]) {
        lemma_trim_start_suffix(s.drop_first());
        assert(s.drop_first().subrange(
            s.drop_first().len() - trim_start(s).len(),
            s.drop_first().len() as int,
        ) =~= s.subrange(s.len() - trim_start(s).len(), s.len() as int));
    } else {
        assert(s.subrange(0, s.len() as int) =~= s);
    }
}

proof fn lemma_trim_end_prefix(s: Seq<char>)
    ensures
        trim_end(s) == s.take(trim_end(s).len() as int),
        trim_end(s).len() > 0 ==> !is_white_space(trim_end(s).last()),
        trim_end(s).len() <= s.len(),
        (s.len() > 0 && !is_white_space(s.last())) ==> trim_end(s) == s,
    decreases s.len(),
{
    if s.len() > 0 && is_white_space(s.last()) {
        lemma_trim_end_prefix(s.drop_last());
        assert(s.drop_last().take(trim_end(s).len() as int) =~= s.take(
            trim_end(s).len() as int,
        ));
    } else {
        assert(s.take(s.len() as int) =~= s);
    }
}

/// Facts about a trimmed sequence: it is a slice of the input, and it
/// neither starts nor ends with white space.
proof fn lemma_trim_shape(s: Seq<char>)
    ensures
        exists|lo: int|
            0 <= lo && lo + trim(s).len() <= s.len() && #[trigger] s.subrange(
                lo,
                lo + trim(s).len(),
            ) == trim(s),
        trim(s).len() > 0 ==> !is_white_space(trim(s)[0]) && !is_white_space(trim(s).last()),
        (s.len() > 0 && !is_white_space(s[0]) && !is_white_space(s.last())) ==> trim(s) == s,
{
    let a = trim_start(s);
    lemma_trim_start_suffix(s);
    lemma_trim_end_prefix(a);
    let lo = s.len() - a.len();
    let k = trim(s).len() as int;
    assert(s.subrange(lo, lo + k) =~= trim(s));
    if trim(s).len() > 0 {
        assert(trim(s)[0] == a[0]);
    }
}

proof fn lemma_sanitized_shape(s: Seq<char>)
    ensures
        sanitized(s).len() > 0,
        sanitized(s).len() <= MAX_ROOM_NAME_LENGTH,
        forall|i: int| 0 <= i < sanitized(s).len() ==> !is_control_char(#[trigger] sanitized(s)[i]),
        !is_white_space(sanitized(s)[0]),
        !is_white_space(sanitized(s).last()),
{
    let f = strip_controls(s);
    let c = cap_length(f);
    let t = trim(c);
    lemma_strip_controls_clean(s);
    assert(forall|i: int| 0 <= i < c.len() ==> c[i] == f[i]);
    lemma_trim_shape(c);
    if t.len() > 0 {
        let lo = choose|lo: int|
            0 <= lo && lo + t.len() <= c.len() && #[trigger] c.subrange(lo, lo + t.len()) == t;
        assert(forall|i: int| 0 <= i < t.len() ==> t[i] == c[lo + i]);
    } else {
        let d = default_room_name();
        assert(d[0] == 'N');
        assert(d.last() == 'm');
        assert(forall|i: int| 0 <= i < d.len() ==> (d[i] as u32) >= 0x20 && (d[i] as u32) <= 0x7A);
    }
}

/// Sanitizing is idempotent: a stored room name sanitizes to itself.
pub proof fn lemma_sanitize_idempotent(s: Seq<char>)
    ensures
        sanitized(sanitized(s)) == sanitized(s),
{
    let t = sanitized(s);
    lemma_sanitized_shape(s);
    lemma_strip_controls_clean(t);
    assert(cap_length(strip_controls(t)) == t);
    lemma_trim_shape(t);
}

/// A name of white space alone, the empty name included, becomes the default name.
pub proof fn lemma_blank_name_gets_default(s: Seq<char>)
    requires
        forall|i: int| 0 <= i < s.len() ==> is_white_space(#[trigger] s[i]),
    ensures
        sanitized(s) == default_room_name(),
{
    let f = strip_controls(s);
    let c = cap_length(f);
    lemma_strip_keeps_white(s);
    assert(forall|i: int| 0 <= i < c.len() ==> c[i] == f[i]);
    lemma_all_white_trims_empty(c);
}

proof fn lemma_strip_keeps_white(s: Seq<char>)
    requires
        forall|i: int| 0 <= i < s.len() ==> is_white_space(#[trigger] s[i]),
    ensures
        forall|i: int|
            0 <= i < strip_controls(s).len() ==> is_white_space(#[trigger] strip_controls(s)[i]),
    decreases s.len(),
{
    if s.len() > 0 {
        assert(forall|i: int| 0 <= i < s.drop_last().len() ==> s.drop_last()[i] == s[i]);
        lemma_strip_keeps_white(s.drop_last());
        assert(is_white_space(s[s.len() - 1]));
        let r = strip_controls(s.drop_last());
        if !is_control_char(s.last()) {
            assert(forall|i: int| 0 <= i < r.len() ==> r.push(s.last())[i] == r[i]);
        }
    }
}

proof fn lemma_all_white_trims_empty(c: Seq<char>)
    requires
        forall|i: int| 0 <= i < c.len() ==> is_white_space(#[trigger] c[i]),
    ensures
        trim_start(c).len() == 0,
    decreases c.len(),
{
    if c.len() > 0 {
        assert(forall|i: int| 0 <= i < c.drop_first().len() ==> c.drop_first()[i] == c[i + 1]);
        lemma_all_white_trims_empty(c.drop_first());
    }
}

} // verus!
