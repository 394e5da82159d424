//! Plain text operations on names and compiler arguments, each with an exact contract
//! over sequences of characters.

use vstd::prelude::*;
use vstd::string::*;

verus! {

/// The characters of a text, in order.
pub fn chars_of(s: &str) -> (v: Vec<char>)
    ensures
        v@ == s@,
{
    let mut v: Vec<char> = Vec::new();
    for c in it: s.chars()
        invariant
            v@ == it.seq().take(it.index() as int),
            it.seq() == s@,
    {
        v.push(c);
    }
    v
}

/// What a list of strings stands for: the list of their texts.
pub open spec fn texts(s: Seq<String>) -> Seq<Seq<char>> {
    Seq::new(s.len(), |i: int| s[i]@)
}

/// The texts among the first `i + 1` of a list are those among the first `i`, and the
/// text at position `i`.
pub proof fn lemma_prefix_grows(s: Seq<Seq<char>>, i: int)
    requires
        0 <= i < s.len(),
    ensures
        s.take(i + 1).to_set() == s.take(i).to_set().insert(s[i]),
{
    let done = s.take(i);
    let next = s.take(i + 1);
    assert forall|t: Seq<char>| next.to_set().contains(t) <==> done.to_set().insert(
        s[i],
    ).contains(t) by {
        if next.contains(t) {
            let j = next.index_of(t);
            if j < i {
                assert(done[j] == t);
            }
        }
        if done.contains(t) {
            let j = done.index_of(t);
            assert(next[j] == t);
        }
        if t == s[i] {
            assert(next[i] == t);
        }
    }
    assert(next.to_set() =~= done.to_set().insert(s[i]));
}

/// Whether two texts hold the same characters.
pub fn same_text(a: &str, b: &str) -> (r: bool)
    ensures
        r == (a@ == b@),
{
    let x: String = a.to_owned();
    let y: String = b.to_owned();
    x == y
}

/// The order of two characters: by code point.
pub open spec fn char_before(a: char, b: char) -> bool {
    (a as int) < (b as int)
}

/// The code point of a character.
fn code_point(c: char) -> (n: u32)
    ensures
        n as int == c as int,
{
    c as u32
}

/// `k` is the first position at which `a` and `b` stop agreeing: they hold the same
/// characters before `k`, and at `k` one of them ends or they differ.
pub open spec fn differ_at(a: Seq<char>, b: Seq<char>, k: int) -> bool {
    &&& 0 <= k <= a.len()
    &&& k <= b.len()
    &&& forall|j: int| 0 <= j < k ==> a[j] == b[j]
    &&& (k == a.len() || k == b.len() || a[k] != b[k])
}

/// The lexicographic order of texts by code point: `a` comes strictly before `b`.
pub open spec fn text_lt(a: Seq<char>, b: Seq<char>) -> bool {
    exists|k: int| #[trigger]
        differ_at(a, b, k) && k < b.len() && (k == a.len() || char_before(a[k], b[k]))
}

/// Any two texts stop agreeing at some position.
pub proof fn lemma_first_difference(a: Seq<char>, b: Seq<char>, from: int) -> (k: int)
    requires
        0 <= from <= a.len(),
        from <= b.len(),
        forall|j: int| 0 <= j < from ==> a[j] == b[j],
    ensures
        differ_at(a, b, k),
        from <= k,
    decreases a.len() - from,
{
    if from == a.len() || from == b.len() || a[from] != b[from] {
        from
    } else {
        lemma_first_difference(a, b, from + 1)
    }
}

/// The position at which two texts stop agreeing is unique.
pub proof fn lemma_difference_unique(a: Seq<char>, b: Seq<char>, k1: int, k2: int)
    requires
        differ_at(a, b, k1),
        differ_at(a, b, k2),
    ensures
        k1 == k2,
{
    if k1 < k2 {
        assert(a[k1] == b[k1]);
    } else if k2 < k1 {
        assert(a[k2] == b[k2]);
    }
}

/// No text comes before itself.
pub proof fn lemma_text_lt_irreflexive(a: Seq<char>)
    ensures
        !text_lt(a, a),
{
    assert forall|k: int| #[trigger] differ_at(a, a, k) implies k == a.len() by {}
}

/// The order of texts is transitive.
pub proof fn lemma_text_lt_transitive(a: Seq<char>, b: Seq<char>, c: Seq<char>)
    requires
        text_lt(a, b),
        text_lt(b, c),
    ensures
        text_lt(a, c),
{
    let k1 = choose|k: int| #[trigger]
        differ_at(a, b, k) && k < b.len() && (k == a.len() || char_before(a[k], b[k]));
    let k2 = choose|k: int| #[trigger]
        differ_at(b, c, k) && k < c.len() && (k == b.len() || char_before(b[k], c[k]));
    let k = if k1 <= k2 { k1 } else { k2 };
    assert forall|j: int| 0 <= j < k implies a[j] == c[j] by {
        assert(a[j] == b[j]);
        assert(b[j] == c[j]);
    }
    if k1 < k2 {
        assert(b[k1] == c[k1]);
    } else if k2 < k1 {
        assert(a[k2] == b[k2]);
    }
    assert(differ_at(a, c, k));
}

/// Two different texts are ordered one way or the other.
pub proof fn lemma_text_lt_total(a: Seq<char>, b: Seq<char>)
    ensures
        text_lt(a, b) || a == b || text_lt(b, a),
{
    let k = lemma_first_difference(a, b, 0);
    assert(differ_at(b, a, k));
    if k == a.len() && k == b.len() {
        assert(a =~= b);
    }
}

/// Whether `a` comes strictly before `b` in the lexicographic order by code point.
pub fn precedes(a: &str, b: &str) -> (r: bool)
    ensures
        r == text_lt(a@, b@),
{
    let x = chars_of(a);
    let y = chars_of(b);
    let mut i: usize = 0;
    while i < x.len() && i < y.len() && x[i] == y[i]
        invariant
            x@ == a@,
            y@ == b@,
            i <= x.len(),
            i <= y.len(),
            forall|j: int| 0 <= j < i ==> x@[j] == y@[j],
        decreases x.len() - i,
    {
        i += 1;
    }
    assert(differ_at(a@, b@, i as int));
    let r = i < y.len() && (i == x.len() || code_point(x[i]) < code_point(y[i]));
    proof {
        if text_lt(a@, b@) {
            let k = choose|k: int| #[trigger]
                differ_at(a@, b@, k) && k < b@.len() && (k == a@.len() || char_before(
                    a@[k],
                    b@[k],
                ));
            lemma_difference_unique(a@, b@, k, i as int);
        }
    }
    r
}

/// The position of the first `c` in `s`, or the length of `s` where it holds none.
pub open spec fn position_of(s: Seq<char>, c: char) -> int
    decreases s.len(),
{
    if s.len() == 0 || s[0] == c {
        0
    } else {
        1 + position_of(s.drop_first(), c)
    }
}

/// `position_of` is the one position before which no `c` stands and at which `s` ends
/// or holds `c`.
pub proof fn lemma_position_of(s: Seq<char>, c: char, k: int)
    requires
        0 <= k <= s.len(),
        forall|j: int| 0 <= j < k ==> s[j] != c,
        k == s.len() || s[k] == c,
    ensures
        position_of(s, c) == k,
    decreases s.len(),
{
    if s.len() == 0 || s[0] == c {
        if k > 0 {
            assert(s[0] != c);
        }
    } else {
        let t = s.drop_first();
        assert forall|j: int| 0 <= j < k - 1 implies t[j] != c by {
            assert(t[j] == s[j + 1]);
        }
        lemma_position_of(t, c, k - 1);
    }
}

/// Whether `s` has the form of an assignment: it holds an equals sign.
pub open spec fn has_assignment(s: Seq<char>) -> bool {
    position_of(s, '=') < s.len()
}

/// What stands before the first equals sign of `s`.
pub open spec fn assigned_name(s: Seq<char>) -> Seq<char> {
    s.take(position_of(s, '='))
}

/// What stands between the first equals sign of `s` and the second, or the end of `s`
/// where there is no second.
pub open spec fn assigned_value(s: Seq<char>) -> Seq<char> {
    let rest = s.skip(position_of(s, '=') + 1);
    rest.take(position_of(rest, '='))
}

/// The first position from `from` on at which `cs` holds `c`, or the length of `cs`.
fn scan_for(cs: &Vec<char>, c: char, from: usize) -> (k: usize)
    requires
        from <= cs.len(),
    ensures
        from <= k <= cs.len(),
        forall|j: int| from <= j < k ==> cs@[j] != c,
        k == cs.len() || cs@[k as int] == c,
{
    let mut k = from;
    while k < cs.len() && cs[k] != c
        invariant
            from <= k <= cs.len(),
            forall|j: int| from <= j < k ==> cs@[j] != c,
        decreases cs.len() - k,
    {
        k += 1;
    }
    k
}

/// Splits an argument of the form `name=value` at its first equals sign. The value ends
/// at a second equals sign where there is one. Without an equals sign there is nothing
/// to split.
pub fn split_assignment(arg: &str) -> (r: Option<(String, String)>)
    ensures
        r is Some <==> has_assignment(arg@),
        r matches Some(p) ==> p.0@ == assigned_name(arg@) && p.1@ == assigned_value(arg@),
{
    let cs = chars_of(arg);
    let n = cs.len();
    let i = scan_for(&cs, '=', 0);
    proof {
        lemma_position_of(arg@, '=', i as int);
    }
    if i == n {
        return None;
    }
    let j = scan_for(&cs, '=', i + 1);
    let name = arg.substring_char(0, i).to_owned();
    let value = arg.substring_char(i + 1, j).to_owned();
    proof {
        let rest = arg@.skip(i + 1);
        assert forall|t: int| 0 <= t < j - (i + 1) implies rest[t] != '=' by {
            assert(rest[t] == arg@[i + 1 + t]);
        }
        lemma_position_of(rest, '=', j - (i + 1));
        assert(value@ =~= assigned_value(arg@));
        assert(name@ =~= assigned_name(arg@));
    }
    Some((name, value))
}

/// Whether `s` ends with `suffix`.
pub open spec fn ends_with(s: Seq<char>, suffix: Seq<char>) -> bool {
    s.len() >= suffix.len() && s.skip(s.len() - suffix.len()) == suffix
}

/// Whether `s` ends with `suffix`.
pub fn text_ends_with(s: &str, suffix: &str) -> (r: bool)
    ensures
        r == ends_with(s@, suffix@),
{
    let n = s.unicode_len();
    let m = suffix.unicode_len();
    if n < m {
        return false;
    }
    let tail = s.substring_char(n - m, n);
    assert(tail@ =~= s@.skip(s@.len() - suffix@.len()));
    same_text(tail, suffix)
}

/// The canonical form of one character of a library name: a hyphen becomes an underscore.
pub open spec fn fold_separator(c: char) -> char {
    if c == '-' {
        '_'
    } else {
        c
    }
}

/// The normalized form of a library name, as source code refers to it: every hyphen
/// folded to an underscore, all else unchanged.
pub open spec fn normalized(s: Seq<char>) -> Seq<char> {
    Seq::new(s.len(), |i: int| fold_separator(s[i]))
}

/// Normalizes a library name.
pub fn normalize(name: &str) -> (r: String)
    ensures
        r@ == normalized(name@),
{
    let cs = chars_of(name);
    let mut out = String::new();
    let mut i: usize = 0;
    while i < cs.len()
        invariant
            cs@ == name@,
            i <= cs.len(),
            out@ == normalized(name@.take(i as int)),
        decreases cs.len() - i,
    {
        if cs[i] == '-' {
            proof {
                reveal_strlit("_");
            }
            out.append("_");
        } else {
            out.append(name.substring_char(i, i + 1));
        }
        i += 1;
        assert(out@ =~= normalized(name@.take(i as int)));
    }
    assert(name@.take(i as int) =~= name@);
    out
}

/// How a truth value is written in messages.
pub open spec fn bool_text(b: bool) -> Seq<char> {
    if b {
        "true"@
    } else {
        "false"@
    }
}

/// Writes a truth value as it stands in messages.
pub fn write_bool(b: bool) -> (r: String)
    ensures
        r@ == bool_text(b),
{
    if b {
        String::from_str("true")
    } else {
        String::from_str("false")
    }
}

} // verus!
