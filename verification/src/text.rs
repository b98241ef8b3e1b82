//! Character-sequence helpers on which the save decoder is built.

use vstd::prelude::*;
use vstd::string::StringExecFns;

verus! {

/// Appends one character to a string (`String::push`).
///
/// Trusted: std's `String::push` appends the given character at the end.
#[verifier::external_body]
pub(crate) fn push_char(s: &mut String, c: char)
    ensures
        final(s)@ == old(s)@.push(c),
{
    s.push(c);
}

/// The characters of `s`, in order.
pub fn chars_of(s: &str) -> (v: Vec<char>)
    ensures
        v@ == s@,
{
    let mut v: Vec<char> = Vec::new();
    for c in it: s.chars()
        invariant
            v@ == it.seq().take(it.index() as int),
    {
        v.push(c);
    }
    v
}

/// Whether two strings hold the same characters.
pub(crate) fn str_eq(a: &str, b: &str) -> (r: bool)
    ensures
        r == (a@ == b@),
{
    let x = chars_of(a);
    let y = chars_of(b);
    if x.len() != y.len() {
        return false;
    }
    let mut i: usize = 0;
    while i < x.len()
        invariant
            x@ == a@,
            y@ == b@,
            x@.len() == y@.len(),
            i <= x@.len(),
            forall|j: int| 0 <= j < i ==> x@[j] == y@[j],
        decreases x.len() - i,
    {
        if x[i] != y[i] {
            return false;
        }
        i += 1;
    }
    assert(a@ =~= b@);
    true
}

/// `s` without its trailing NUL characters.
pub open spec fn trim_nul(s: Seq<char>) -> Seq<char>
    decreases s.len(),
{
    if s.len() > 0 && s.last() == '\0' {
        trim_nul(s.drop_last())
    } else {
        s
    }
}

/// Dropping trailing NULs keeps a prefix of `s`, leaves no trailing NUL,
/// and dropping them again changes nothing.
pub proof fn lemma_trim_nul(s: Seq<char>)
    ensures
        trim_nul(s).len() <= s.len(),
        trim_nul(s) == s.take(trim_nul(s).len() as int),
        trim_nul(s).len() > 0 ==> trim_nul(s).last() != '\0',
        trim_nul(trim_nul(s)) == trim_nul(s),
    decreases s.len(),
{
    if s.len() > 0 && s.last() == '\0' {
        lemma_trim_nul(s.drop_last());
        let t = trim_nul(s.drop_last());
        assert(s.drop_last().take(t.len() as int) =~= s.take(t.len() as int));
    } else {
        assert(s.take(s.len() as int) =~= s);
    }
}

proof fn lemma_trim_nul_take(s: Seq<char>, k: int)
    requires
        0 <= k <= s.len(),
        forall|j: int| k <= j < s.len() ==> s[j] == '\0',
        k == 0 || s[k - 1] != '\0',
    ensures
        trim_nul(s) == s.take(k),
    decreases s.len(),
{
    if s.len() > k {
        lemma_trim_nul_take(s.drop_last(), k);
        assert(s.drop_last().take(k) =~= s.take(k));
    } else {
        assert(s.take(k) =~= s);
    }
}

/// Number of characters left once trailing NULs are dropped.
pub fn trimmed_len(v: &[char]) -> (k: usize)
    ensures
        k <= v@.len(),
        trim_nul(v@) == v@.take(k as int),
{
    let mut k = v.len();
    while k > 0 && v[k - 1] == '\0'
        invariant
            k <= v@.len(),
            forall|j: int| k <= j < v@.len() ==> v@[j] == '\0',
        decreases k,
    {
        k = k - 1;
    }
    proof {
        lemma_trim_nul_take(v@, k as int);
    }
    k
}

/// A string built from `v[lo..hi]`.
pub fn string_of_range(v: &[char], lo: usize, hi: usize) -> (s: String)
    requires
        lo <= hi <= v@.len(),
    ensures
        s@ == v@.subrange(lo as int, hi as int),
{
    let mut s = String::new();
    let mut i: usize = lo;
    while i < hi
        invariant
            lo <= i <= hi,
            hi <= v@.len(),
            s@ == v@.subrange(lo as int, i as int),
        decreases hi - i,
    {
        push_char(&mut s, v[i]);
        i += 1;
        assert(s@ =~= v@.subrange(lo as int, i as int));
    }
    s
}

/// `s` with trailing NUL characters removed.
pub fn clean(s: &str) -> (r: String)
    ensures
        r@ == trim_nul(s@),
{
    let v = chars_of(s);
    let k = trimmed_len(v.as_slice());
    let r = string_of_range(v.as_slice(), 0, k);
    assert(v@.subrange(0, k as int) =~= v@.take(k as int));
    r
}

/// `n` occurs in `h` starting at index `i`.
pub open spec fn occurs_at(h: Seq<char>, n: Seq<char>, i: int) -> bool {
    0 <= i && i + n.len() <= h.len() && h.subrange(i, i + n.len()) == n
}

/// `n` occurs somewhere in `h` (the empty sequence occurs everywhere).
pub open spec fn contains(h: Seq<char>, n: Seq<char>) -> bool {
    exists|i: int| occurs_at(h, n, i)
}

/// Whether `n` occurs in `h` at index `i`.
pub fn matches_at(h: &[char], n: &[char], i: usize) -> (r: bool)
    ensures
        r == occurs_at(h@, n@, i as int),
{
    if i > h.len() || h.len() - i < n.len() {
        return false;
    }
    let mut j: usize = 0;
    while j < n.len()
        invariant
            i + n.len() <= h.len(),
            j <= n@.len(),
            h@.subrange(i as int, i + j) == n@.take(j as int),
        decreases n.len() - j,
    {
        if h[i + j] != n[j] {
            assert(h@.subrange(i as int, i + n@.len())[j as int] != n@[j as int]);
            return false;
        }
        j += 1;
        assert(h@.subrange(i as int, i + j) =~= n@.take(j as int));
    }
    assert(n@.take(n@.len() as int) =~= n@);
    true
}

/// Whether `n` occurs in `h`.
pub fn has_sub(h: &[char], n: &[char]) -> (r: bool)
    ensures
        r == contains(h@, n@),
{
    if n.len() > h.len() {
        return false;
    }
    let last = h.len() - n.len();
    let mut i: usize = 0;
    while i < last
        invariant
            i <= last,
            last == h@.len() - n@.len(),
            forall|k: int| 0 <= k < i ==> !occurs_at(h@, n@, k),
        decreases last - i,
    {
        if matches_at(h, n, i) {
            return true;
        }
        i += 1;
    }
    matches_at(h, n, last)
}

/// Whether the string `n` occurs in the string `h` (`str::contains`).
pub fn str_contains(h: &str, n: &str) -> (r: bool)
    ensures
        r == contains(h@, n@),
{
    let hv = chars_of(h);
    let nv = chars_of(n);
    has_sub(hv.as_slice(), nv.as_slice())
}

/// The characters of `s` before the first `c` (all of `s` when there is
/// none): the first piece of `s` split at `c`.
pub open spec fn before_char(s: Seq<char>, c: char) -> Seq<char>
    decreases s.len(),
{
    if s.len() == 0 || s[0] == c {
        Seq::empty()
    } else {
        seq![s[0]] + before_char(s.drop_first(), c)
    }
}

/// The characters of `s` after its last `c` (all of `s` when there is
/// none): the last piece of `s` split at `c`.
pub open spec fn after_last(s: Seq<char>, c: char) -> Seq<char>
    decreases s.len(),
{
    if s.len() == 0 || s.last() == c {
        Seq::empty()
    } else {
        after_last(s.drop_last(), c).push(s.last())
    }
}

/// Piece `k` (from 0) of `s` split at `sep`; `None` when `s` has fewer
/// than `k + 1` pieces.
pub open spec fn nth_field(s: Seq<char>, sep: char, k: nat) -> Option<Seq<char>>
    decreases s.len(),
{
    if k == 0 {
        Some(before_char(s, sep))
    } else if s.len() == 0 {
        None
    } else if s[0] == sep {
        nth_field(s.drop_first(), sep, (k - 1) as nat)
    } else {
        nth_field(s.drop_first(), sep, k)
    }
}

proof fn lemma_before_char_skip(s: Seq<char>, c: char, i: int)
    requires
        0 <= i < s.len(),
        s[i] != c,
    ensures
        before_char(s.skip(i), c) == seq![s[i]] + before_char(s.skip(i + 1), c),
{
    assert(s.skip(i).drop_first() =~= s.skip(i + 1));
}

/// Index of the first `c` in `v[lo..]`, or the length of `v`; the
/// characters from `lo` up to it are the first piece of `v[lo..]` split at `c`.
pub fn piece_end(v: &[char], lo: usize, c: char) -> (k: usize)
    requires
        lo <= v@.len(),
    ensures
        lo <= k <= v@.len(),
        v@.subrange(lo as int, k as int) == before_char(v@.skip(lo as int), c),
        k < v@.len() ==> v@[k as int] == c,
{
    let mut k = lo;
    while k < v.len() && v[k] != c
        invariant
            lo <= k <= v@.len(),
            before_char(v@.skip(lo as int), c) == v@.subrange(lo as int, k as int) + before_char(
                v@.skip(k as int),
                c,
            ),
        decreases v.len() - k,
    {
        proof {
            lemma_before_char_skip(v@, c, k as int);
            assert(v@.subrange(lo as int, k as int) + seq![v@[k as int]] =~= v@.subrange(
                lo as int,
                k + 1,
            ));
        }
        k += 1;
    }
    assert(before_char(v@.skip(k as int), c) =~= Seq::<char>::empty());
    assert(v@.subrange(lo as int, k as int) + Seq::<char>::empty() =~= v@.subrange(lo as int, k as int));
    k
}

/// Index just past the last `c` in `v` (0 when there is none); the
/// characters from it on are the last piece of `v` split at `c`.
pub fn last_piece_start(v: &[char], c: char) -> (k: usize)
    ensures
        k <= v@.len(),
        v@.skip(k as int) == after_last(v@, c),
{
    let mut k = v.len();
    assert(v@.take(k as int) =~= v@);
    assert(after_last(v@, c) + v@.skip(k as int) =~= after_last(v@, c));
    while k > 0 && v[k - 1] != c
        invariant
            k <= v@.len(),
            after_last(v@, c) == after_last(v@.take(k as int), c) + v@.skip(k as int),
        decreases k,
    {
        proof {
            let t = v@.take(k as int);
            assert(t.drop_last() =~= v@.take(k - 1));
            assert(after_last(v@.take(k - 1), c).push(v@[k - 1]) + v@.skip(k as int)
                =~= after_last(v@.take(k - 1), c) + v@.skip(k - 1));
        }
        k -= 1;
    }
    assert(after_last(v@.take(k as int), c) =~= Seq::<char>::empty());
    assert(Seq::<char>::empty() + v@.skip(k as int) =~= v@.skip(k as int));
    k
}

/// Piece `k` of `s` split at `sep` (`str::split(sep).nth(k)`).
pub fn nth_piece(s: &str, sep: char, k: usize) -> (r: Option<String>)
    ensures
        match nth_field(s@, sep, k as nat) {
            Some(f) => r matches Some(x) && x@ == f,
            None => r is None,
        },
{
    let v = chars_of(s);
    let mut i: usize = 0;
    let mut left: usize = k;
    assert(v@.skip(0) =~= v@);
    while left > 0
        invariant
            i <= v@.len(),
            left <= k,
            v@ == s@,
            nth_field(s@, sep, k as nat) == nth_field(v@.skip(i as int), sep, left as nat),
        decreases v@.len() - i, left,
    {
        if i == v.len() {
            return None;
        }
        assert(v@.skip(i as int).drop_first() =~= v@.skip(i + 1));
        if v[i] == sep {
            left -= 1;
        }
        i += 1;
    }
    let e = piece_end(v.as_slice(), i, sep);
    Some(string_of_range(v.as_slice(), i, e))
}

/// Whether a character is upper case (`char::is_uppercase`).
pub uninterp spec fn is_upper(c: char) -> bool;

/// Upper-case test of one character.
///
/// Trusted: calls std's `char::is_uppercase` (the Unicode `Uppercase`
/// property), whose result depends on `c` alone; the result is named
/// [`is_upper`]. Of ASCII it claims what the documentation shows: the
/// letters `A` to `Z` are upper case; `a` to `z`, the digits, `_` and the
/// space are not.
#[verifier::external_body]
fn char_is_upper(c: char) -> (r: bool)
    ensures
        r == is_upper(c),
        0x41 <= c as u32 <= 0x5A ==> r,
        0x61 <= c as u32 <= 0x7A ==> !r,
        0x30 <= c as u32 <= 0x39 ==> !r,
        c == '_' ==> !r,
        c == ' ' ==> !r,
{
    c.is_uppercase()
}

/// Readable labels of well-known object types.
pub open spec fn known_label(base: Seq<char>) -> Option<Seq<char>> {
    if base == "Thruster_Medium_Consumable"@ {
        Some("Solid-Fuel Thruster"@)
    } else if base == "Thruster_Medium"@ {
        Some("Hydrazine Thruster"@)
    } else if base == "BuiltInVehicleSeat"@ {
        Some("Cockpit seat"@)
    } else if base == "Seat_Medium"@ {
        Some("Medium Seat"@)
    } else if base == "Seat3_Large"@ {
        Some("Large Seat"@)
    } else if base == "DeployableLandingPad"@ {
        Some("Deployable Landing Pad"@)
    } else if base == "NaturalLandingPad"@ {
        Some("Natural Landing Spot"@)
    } else if base == "StationLandingPad"@ {
        Some("Landing Zone (POI)"@)
    } else if base == "Item_ModernPOI_ShuttlePlatform"@ {
        Some("Shuttle Platform (POI)"@)
    } else {
        None
    }
}

/// What character `i` of `v` becomes in a readable label: an underscore
/// becomes a space, and an upper-case letter that follows neither an
/// underscore nor another upper-case letter gets a space before it.
pub open spec fn pretty_piece(v: Seq<char>, i: int) -> Seq<char> {
    let ch = v[i];
    if ch == '_' {
        seq![' ']
    } else if is_upper(ch) && i > 0 && v[i - 1] != '_' && !is_upper(v[i - 1]) {
        seq![' ', ch]
    } else {
        seq![ch]
    }
}

/// The readable form of `v[..n]`.
pub open spec fn pretty_upto(v: Seq<char>, n: int) -> Seq<char>
    decreases n,
{
    if n <= 0 {
        Seq::empty()
    } else {
        pretty_upto(v, n - 1) + pretty_piece(v, n - 1)
    }
}

/// Readable label of an object's short type: the part before the first
/// '.', looked up in [`known_label`], else spelled out word by word.
pub open spec fn spec_prettify(short: Seq<char>) -> Seq<char> {
    let base = before_char(short, '.');
    match known_label(base) {
        Some(l) => l,
        None => pretty_upto(base, base.len() as int),
    }
}

fn known_label_of(base: &str) -> (r: Option<String>)
    ensures
        match known_label(base@) {
            Some(l) => r matches Some(x) && x@ == l,
            None => r is None,
        },
{
    if str_eq(base, "Thruster_Medium_Consumable") {
        Some(String::from_str("Solid-Fuel Thruster"))
    } else if str_eq(base, "Thruster_Medium") {
        Some(String::from_str("Hydrazine Thruster"))
    } else if str_eq(base, "BuiltInVehicleSeat") {
        Some(String::from_str("Cockpit seat"))
    } else if str_eq(base, "Seat_Medium") {
        Some(String::from_str("Medium Seat"))
    } else if str_eq(base, "Seat3_Large") {
        Some(String::from_str("Large Seat"))
    } else if str_eq(base, "DeployableLandingPad") {
        Some(String::from_str("Deployable Landing Pad"))
    } else if str_eq(base, "NaturalLandingPad") {
        Some(String::from_str("Natural Landing Spot"))
    } else if str_eq(base, "StationLandingPad") {
        Some(String::from_str("Landing Zone (POI)"))
    } else if str_eq(base, "Item_ModernPOI_ShuttlePlatform") {
        Some(String::from_str("Shuttle Platform (POI)"))
    } else {
        None
    }
}

/// Readable label of an object's short type (see [`spec_prettify`]).
pub fn prettify(short: &str) -> (r: String)
    ensures
        r@ == spec_prettify(short@),
{
    let v = chars_of(short);
    let k = piece_end(v.as_slice(), 0, '.');
    assert(v@.skip(0) =~= v@);
    let base = string_of_range(v.as_slice(), 0, k);
    match known_label_of(base.as_str()) {
        Some(l) => return l,
        None => {},
    }
    let ghost b = base@;
    let mut s = String::new();
    let mut i: usize = 0;
    while i < k
        invariant
            k <= v@.len(),
            b == v@.subrange(0, k as int),
            i <= k,
            s@ == pretty_upto(b, i as int),
        decreases k - i,
    {
        let ch = v[i];
        if ch == '_' {
            push_char(&mut s, ' ');
        } else {
            if char_is_upper(ch) && i > 0 {
                let prev = v[i - 1];
                if prev != '_' && !char_is_upper(prev) {
                    push_char(&mut s, ' ');
                }
            }
            push_char(&mut s, ch);
        }
        i += 1;
        assert(s@ =~= pretty_upto(b, i as int));
    }
    s
}

/// The escaped form of one character inside a JSON string: a quote or a
/// backslash gets a backslash before it.
pub open spec fn escape_char(c: char) -> Seq<char> {
    if c == '"' || c == '\\' {
        seq!['\\', c]
    } else {
        seq![c]
    }
}

/// `s` with each character escaped.
pub open spec fn escape(s: Seq<char>) -> Seq<char>
    decreases s.len(),
{
    if s.len() == 0 {
        Seq::empty()
    } else {
        escape_char(s[0]) + escape(s.drop_first())
    }
}

/// `s` as a quoted JSON string.
pub open spec fn spec_jstr(s: Seq<char>) -> Seq<char> {
    seq!['"'] + escape(s) + seq!['"']
}

proof fn lemma_escape_push(s: Seq<char>, c: char)
    ensures
        escape(s.push(c)) == escape(s) + escape_char(c),
    decreases s.len(),
{
    assert(s.push(c)[0] == if s.len() == 0 { c } else { s[0] });
    if s.len() == 0 {
        assert(s.push(c).drop_first() =~= Seq::<char>::empty());
        assert(escape(Seq::<char>::empty()) =~= Seq::<char>::empty());
        assert(escape_char(c) + Seq::<char>::empty() =~= escape_char(c));
        assert(Seq::<char>::empty() + escape_char(c) =~= escape_char(c));
    } else {
        lemma_escape_push(s.drop_first(), c);
        assert(s.push(c).drop_first() =~= s.drop_first().push(c));
        assert(escape_char(s[0]) + (escape(s.drop_first()) + escape_char(c)) =~= (escape_char(s[0])
            + escape(s.drop_first())) + escape_char(c));
    }
}

/// Quotes `s` as a JSON string, escaping quotes and backslashes.
pub fn jstr(s: &str) -> (r: String)
    ensures
        r@ == spec_jstr(s@),
{
    let v = chars_of(s);
    let mut o = String::new();
    push_char(&mut o, '"');
    let mut i: usize = 0;
    while i < v.len()
        invariant
            i <= v@.len(),
            o@ == seq!['"'] + escape(v@.take(i as int)),
        decreases v.len() - i,
    {
        let c = v[i];
        proof {
            assert(v@.take(i + 1) =~= v@.take(i as int).push(c));
            lemma_escape_push(v@.take(i as int), c);
        }
        if c == '"' || c == '\\' {
            push_char(&mut o, '\\');
        }
        push_char(&mut o, c);
        i += 1;
        assert(o@ =~= seq!['"'] + escape(v@.take(i as int)));
    }
    push_char(&mut o, '"');
    assert(v@.take(v@.len() as int) =~= v@);
    o
}

/// The characters of a JSON string body up to its closing quote, which
/// must end `t`; a backslash takes the next character as it is. `None`
/// where `t` is not such a body.
pub open spec fn read_json_body(t: Seq<char>) -> Option<Seq<char>>
    decreases t.len(),
{
    if t.len() == 0 {
        None
    } else if t[0] == '"' {
        if t.len() == 1 {
            Some(Seq::empty())
        } else {
            None
        }
    } else if t[0] == '\\' {
        if t.len() < 2 {
            None
        } else {
            match read_json_body(t.skip(2)) {
                Some(r) => Some(seq![t[1]] + r),
                None => None,
            }
        }
    } else {
        match read_json_body(t.drop_first()) {
            Some(r) => Some(seq![t[0]] + r),
            None => None,
        }
    }
}

/// The string a quoted JSON string `t` denotes.
pub open spec fn read_json_string(t: Seq<char>) -> Option<Seq<char>> {
    if t.len() > 0 && t[0] == '"' {
        read_json_body(t.drop_first())
    } else {
        None
    }
}

proof fn lemma_read_escaped(s: Seq<char>)
    ensures
        read_json_body(escape(s) + seq!['"']) == Some(s),
    decreases s.len(),
{
    if s.len() == 0 {
        assert(escape(s) + seq!['"'] =~= seq!['"']);
    } else {
        lemma_read_escaped(s.drop_first());
        let t = escape(s) + seq!['"'];
        let rest = escape(s.drop_first()) + seq!['"'];
        if s[0] == '"' || s[0] == '\\' {
            assert(t.skip(2) =~= rest);
        } else {
            assert(t.drop_first() =~= rest);
        }
        assert(seq![s[0]] + s.drop_first() =~= s);
    }
}

/// Reading back a string quoted by [`jstr`] gives that same string.
pub proof fn lemma_jstr_reads_back(s: Seq<char>)
    ensures
        read_json_string(spec_jstr(s)) == Some(s),
{
    lemma_read_escaped(s);
    assert(spec_jstr(s).drop_first() =~= escape(s) + seq!['"']);
}

/// Number of quotes and backslashes in `s`.
pub open spec fn escaped_count(s: Seq<char>) -> nat
    decreases s.len(),
{
    if s.len() == 0 {
        0
    } else {
        (if s[0] == '"' || s[0] == '\\' { 1nat } else { 0nat }) + escaped_count(s.drop_first())
    }
}

proof fn lemma_escape_len(s: Seq<char>)
    ensures
        escape(s).len() == s.len() + escaped_count(s),
    decreases s.len(),
{
    if s.len() > 0 {
        lemma_escape_len(s.drop_first());
    }
}

/// A string quoted by [`jstr`] is two characters longer than `s`, plus one
/// for each quote or backslash of `s`.
pub proof fn lemma_jstr_len(s: Seq<char>)
    ensures
        spec_jstr(s).len() == s.len() + 2 + escaped_count(s),
{
    lemma_escape_len(s);
}

/// `s` without its spaces.
pub open spec fn without_spaces(s: Seq<char>) -> Seq<char>
    decreases s.len(),
{
    if s.len() == 0 {
        Seq::empty()
    } else if s.last() == ' ' {
        without_spaces(s.drop_last())
    } else {
        without_spaces(s.drop_last()).push(s.last())
    }
}

/// `s` without its spaces and underscores.
pub open spec fn word_letters(s: Seq<char>) -> Seq<char>
    decreases s.len(),
{
    if s.len() == 0 {
        Seq::empty()
    } else if s.last() == ' ' || s.last() == '_' {
        word_letters(s.drop_last())
    } else {
        word_letters(s.drop_last()).push(s.last())
    }
}

proof fn lemma_without_spaces_add(a: Seq<char>, b: Seq<char>)
    ensures
        without_spaces(a + b) == without_spaces(a) + without_spaces(b),
    decreases b.len(),
{
    if b.len() == 0 {
        assert(a + b =~= a);
        assert(without_spaces(a) + without_spaces(b) =~= without_spaces(a));
    } else {
        lemma_without_spaces_add(a, b.drop_last());
        assert((a + b).drop_last() =~= a + b.drop_last());
        assert((a + b).last() == b.last());
        if b.last() != ' ' {
            assert(without_spaces(a) + without_spaces(b.drop_last()).push(b.last()) =~= (
            without_spaces(a) + without_spaces(b.drop_last())).push(b.last()));
        }
    }
}

proof fn lemma_without_spaces_short(ch: char)
    ensures
        without_spaces(seq![' ']) == Seq::<char>::empty(),
        without_spaces(seq![ch]) == (if ch == ' ' { Seq::<char>::empty() } else { seq![ch] }),
        without_spaces(seq![' ', ch]) == (if ch == ' ' { Seq::<char>::empty() } else { seq![ch] }),
{
    assert(seq![' '].drop_last() =~= Seq::<char>::empty());
    assert(seq![ch].drop_last() =~= Seq::<char>::empty());
    assert(seq![' ', ch].drop_last() =~= seq![' ']);
    assert(without_spaces(Seq::<char>::empty()) == Seq::<char>::empty());
    assert(Seq::<char>::empty().push(ch) =~= seq![ch]);
}

proof fn lemma_pretty_upto_letters(v: Seq<char>, n: int)
    requires
        0 <= n <= v.len(),
    ensures
        without_spaces(pretty_upto(v, n)) == word_letters(v.take(n)),
        forall|i: int| 0 <= i < pretty_upto(v, n).len() ==> pretty_upto(v, n)[i] != '_',
    decreases n,
{
    if n == 0 {
        assert(v.take(0) =~= Seq::<char>::empty());
    } else {
        lemma_pretty_upto_letters(v, n - 1);
        let a = pretty_upto(v, n - 1);
        let b = pretty_piece(v, n - 1);
        lemma_without_spaces_add(a, b);
        assert(v.take(n).drop_last() =~= v.take(n - 1));
        assert(v.take(n).last() == v[n - 1]);
        let ch = v[n - 1];
        lemma_without_spaces_short(ch);
        let w = if ch == ' ' || ch == '_' { Seq::<char>::empty() } else { seq![ch] };
        assert(without_spaces(b) == w);
        assert(word_letters(v.take(n)) =~= word_letters(v.take(n - 1)) + w);
        assert(pretty_upto(v, n) == a + b);
        assert forall|i: int| 0 <= i < pretty_upto(v, n).len() implies pretty_upto(v, n)[i] != '_' by {
            if i < a.len() {
                assert(pretty_upto(v, n)[i] == a[i]);
            } else {
                assert(pretty_upto(v, n)[i] == b[i - a.len()]);
            }
        }
    }
}

proof fn lemma_before_char_twice(s: Seq<char>, c: char)
    ensures
        before_char(before_char(s, c), c) == before_char(s, c),
    decreases s.len(),
{
    if s.len() > 0 && s[0] != c {
        lemma_before_char_twice(s.drop_first(), c);
        let b = before_char(s.drop_first(), c);
        assert((seq![s[0]] + b)[0] == s[0]);
        assert((seq![s[0]] + b).drop_first() =~= b);
    }
}

/// The label of a short type is that of its part before the first '.';
/// where that part has no fixed label, the label holds no underscore and,
/// spaces aside, has exactly the part's letters in order: spaces are only
/// inserted, and underscores turn into spaces.
pub proof fn lemma_prettify_words(short: Seq<char>)
    ensures
        spec_prettify(short) == spec_prettify(before_char(short, '.')),
        known_label(before_char(short, '.')) is None ==> {
            &&& forall|i: int|
                0 <= i < spec_prettify(short).len() ==> spec_prettify(short)[i] != '_'
            &&& without_spaces(spec_prettify(short)) == word_letters(before_char(short, '.'))
        },
{
    lemma_before_char_twice(short, '.');
    let base = before_char(short, '.');
    lemma_pretty_upto_letters(base, base.len() as int);
    assert(base.take(base.len() as int) =~= base);
}

/// Object types of shuttles.
pub open spec fn spec_is_shuttle(t: Seq<char>) -> bool {
    contains(t, "Shuttle_T"@) && contains(t, "ThrusterSlot"@)
}

/// Object types of landing pads and shuttle platforms.
pub open spec fn spec_is_pad(t: Seq<char>) -> bool {
    contains(t, "LandingPad"@) || contains(t, "ShuttlePlatform"@)
}

/// Whether object type `t` is a shuttle.
pub fn is_shuttle(t: &str) -> (r: bool)
    ensures
        r == spec_is_shuttle(t@),
{
    str_contains(t, "Shuttle_T") && str_contains(t, "ThrusterSlot")
}

/// Whether object type `t` is a landing pad or shuttle platform.
pub fn is_pad(t: &str) -> (r: bool)
    ensures
        r == spec_is_pad(t@),
{
    str_contains(t, "LandingPad") || str_contains(t, "ShuttlePlatform")
}

/// Label of a ship by its short type.
pub open spec fn spec_ship_label(short: Seq<char>) -> Seq<char> {
    if contains(short, "Shuttle_T2"@) {
        "Small Shuttle"@
    } else if contains(short, "Shuttle_T3"@) {
        "Medium Shuttle"@
    } else if contains(short, "Shuttle_T4"@) {
        "Large Shuttle"@
    } else {
        spec_prettify(short)
    }
}

/// Label of a ship by its short type (see [`spec_ship_label`]).
pub fn ship_label(short: &str) -> (r: String)
    ensures
        r@ == spec_ship_label(short@),
{
    if str_contains(short, "Shuttle_T2") {
        String::from_str("Small Shuttle")
    } else if str_contains(short, "Shuttle_T3") {
        String::from_str("Medium Shuttle")
    } else if str_contains(short, "Shuttle_T4") {
        String::from_str("Large Shuttle")
    } else {
        prettify(short)
    }
}

/// Player-facing planet name for the third '_'-separated piece of a
/// planet object's name; other keys stand as they are.
pub open spec fn planet_display(key: Seq<char>) -> Seq<char> {
    if key == "Terran"@ {
        "Sylva"@
    } else if key == "TerranMoon"@ {
        "Desolo"@
    } else if key == "Arid"@ {
        "Calidor"@
    } else if key == "Exotic"@ {
        "Vesania"@
    } else if key == "ExoticMoon"@ {
        "Novus"@
    } else if key == "Tundra"@ {
        "Glacio"@
    } else if key == "Radiated"@ {
        "Atrox"@
    } else {
        key
    }
}

/// Player-facing name of the planet whose object is named `name`: the
/// display name of its third '_'-separated piece, or "" when it has fewer.
pub open spec fn spec_planet_label(name: Seq<char>) -> Seq<char> {
    match nth_field(name, '_', 2) {
        Some(key) => planet_display(key),
        None => planet_display(""@),
    }
}

/// Player-facing name of the planet whose object is named `name` (see
/// [`spec_planet_label`]).
pub fn planet_label(name: &str) -> (r: String)
    ensures
        r@ == spec_planet_label(name@),
{
    let key = match nth_piece(name, '_', 2) {
        Some(k) => k,
        None => String::new(),
    };
    proof {
        reveal_strlit("");
        assert(""@ =~= Seq::<char>::empty());
    }
    let k = key.as_str();
    if str_eq(k, "Terran") {
        String::from_str("Sylva")
    } else if str_eq(k, "TerranMoon") {
        String::from_str("Desolo")
    } else if str_eq(k, "Arid") {
        String::from_str("Calidor")
    } else if str_eq(k, "Exotic") {
        String::from_str("Vesania")
    } else if str_eq(k, "ExoticMoon") {
        String::from_str("Novus")
    } else if str_eq(k, "Tundra") {
        String::from_str("Glacio")
    } else if str_eq(k, "Radiated") {
        String::from_str("Atrox")
    } else {
        String::from_str(k)
    }
}

} // verus!
