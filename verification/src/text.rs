//! Text operations on `str`, stated over its sequence of characters.
use std::string::FromUtf8Error;
use vstd::prelude::*;
use vstd::utf8::*;

verus! {

/// `s` begins with `prefix`.
pub open spec fn has_prefix(s: Seq<char>, prefix: Seq<char>) -> bool {
    prefix.len() <= s.len() && s.take(prefix.len() as int) == prefix
}

/// `s` without its longest prefix of characters that satisfy `drop`.
pub open spec fn trim_start(s: Seq<char>, drop: spec_fn(char) -> bool) -> Seq<char>
    decreases s.len(),
{
    if s.len() > 0 && drop(s[0]) {
        trim_start(s.drop_first(), drop)
    } else {
        s
    }
}

/// `s` without its longest suffix of characters that satisfy `drop`.
pub open spec fn trim_end(s: Seq<char>, drop: spec_fn(char) -> bool) -> Seq<char>
    decreases s.len(),
{
    if s.len() > 0 && drop(s.last()) {
        trim_end(s.drop_last(), drop)
    } else {
        s
    }
}

/// `s` without the characters at its two ends that satisfy `drop`.
pub open spec fn trim_both(s: Seq<char>, drop: spec_fn(char) -> bool) -> Seq<char> {
    trim_end(trim_start(s, drop), drop)
}

/// `s` without the occurrences of `c` at its two ends.
pub open spec fn trim_char(s: Seq<char>, c: char) -> Seq<char> {
    trim_both(s, equals(c))
}

/// The predicate that holds of `c` alone.
pub open spec fn equals(c: char) -> spec_fn(char) -> bool {
    |x: char| x == c
}

/// `s` without the white space at its two ends.
pub open spec fn trim_space(s: Seq<char>) -> Seq<char> {
    trim_both(s, |x: char| white_space(x))
}

/// The characters with the Unicode property `White_Space`, as `PropList.txt` of the
/// Unicode character database lists them.
pub open spec fn white_space(c: char) -> bool {
    let n = c as u32;
    ||| 0x09 <= n <= 0x0d
    ||| n == 0x20
    ||| n == 0x85
    ||| n == 0xa0
    ||| n == 0x1680
    ||| 0x2000 <= n <= 0x200a
    ||| n == 0x2028
    ||| n == 0x2029
    ||| n == 0x202f
    ||| n == 0x205f
    ||| n == 0x3000
}

/// The parts of `s` before and after the first occurrence of `c`.
pub open spec fn split_first(s: Seq<char>, c: char) -> Option<(Seq<char>, Seq<char>)>
    decreases s.len(),
{
    if s.len() == 0 {
        None
    } else if s[0] == c {
        Some((Seq::empty(), s.drop_first()))
    } else {
        match split_first(s.drop_first(), c) {
            Some((before, after)) => Some((seq![s[0]] + before, after)),
            None => None,
        }
    }
}

/// The part of `s` after the last occurrence of `c`, the whole of `s` where `c`
/// does not occur.
pub open spec fn after_last(s: Seq<char>, c: char) -> Seq<char>
    decreases s.len(),
{
    if s.len() == 0 {
        s
    } else if s.last() == c {
        Seq::empty()
    } else {
        after_last(s.drop_last(), c).push(s.last())
    }
}

/// The view of an optional text.
pub open spec fn view_of(s: Option<&str>) -> Option<Seq<char>> {
    match s {
        Some(s) => Some(s@),
        None => None,
    }
}

/// Two texts with the same UTF-8 bytes are the same text.
pub proof fn lemma_utf8_injective(a: Seq<char>, b: Seq<char>)
    requires
        encode_utf8(a) == encode_utf8(b),
    ensures
        a == b,
{
    encode_utf8_decode_utf8(a);
    encode_utf8_decode_utf8(b);
}

/// A text splits at the first `c` where the part before it holds no `c`.
pub proof fn lemma_split_first(before: Seq<char>, c: char, after: Seq<char>)
    requires
        !before.contains(c),
    ensures
        split_first(before + seq![c] + after, c) == Some((before, after)),
    decreases before.len(),
{
    let s = before + seq![c] + after;
    if before.len() == 0 {
        assert(s.drop_first() =~= after);
        assert(before =~= Seq::empty());
    } else {
        assert(before[0] != c);
        assert forall|x: char| before.drop_first().contains(x) implies before.contains(x) by {
            let i = choose|i: int|
                0 <= i < before.drop_first().len() && before.drop_first()[i] == x;
            assert(before[i + 1] == x);
        }
        lemma_split_first(before.drop_first(), c, after);
        assert(s.drop_first() =~= before.drop_first() + seq![c] + after);
        assert(seq![s[0]] + before.drop_first() =~= before);
    }
}

/// A text without `c` does not split at `c`.
pub proof fn lemma_split_first_none(s: Seq<char>, c: char)
    ensures
        !s.contains(c) <==> split_first(s, c) is None,
    decreases s.len(),
{
    if s.len() > 0 {
        lemma_split_first_none(s.drop_first(), c);
        if s.contains(c) && s[0] != c {
            let i = choose|i: int| 0 <= i < s.len() && s[i] == c;
            assert(s.drop_first()[i - 1] == c);
        }
        if s.drop_first().contains(c) {
            let i = choose|i: int| 0 <= i < s.drop_first().len() && s.drop_first()[i] == c;
            assert(s[i + 1] == c);
        }
    }
}

/// The UTF-8 bytes of two texts, one behind the other.
pub proof fn lemma_utf8_concat(a: Seq<char>, b: Seq<char>)
    ensures
        encode_utf8(a + b) == encode_utf8(a) + encode_utf8(b),
    decreases a.len(),
{
    if a.len() == 0 {
        assert(a + b =~= b);
        assert(encode_utf8(a) + encode_utf8(b) =~= encode_utf8(b));
    } else {
        lemma_utf8_concat(a.drop_first(), b);
        assert((a + b).drop_first() =~= a.drop_first() + b);
        assert(encode_utf8(a + b) =~= encode_utf8(a) + encode_utf8(b));
    }
}

/// A part of a text has no more UTF-8 bytes than the text.
pub proof fn lemma_part_is_shorter(s: Seq<char>, i: int, j: int)
    requires
        0 <= i <= j <= s.len(),
    ensures
        encode_utf8(s.subrange(i, j)).len() <= encode_utf8(s).len(),
{
    assert(s =~= s.take(i) + s.subrange(i, j) + s.skip(j));
    lemma_utf8_concat(s.take(i) + s.subrange(i, j), s.skip(j));
    lemma_utf8_concat(s.take(i), s.subrange(i, j));
}

/// A trimmed text has no more UTF-8 bytes than the text.
pub proof fn lemma_trim_is_shorter(s: Seq<char>, drop: spec_fn(char) -> bool)
    ensures
        encode_utf8(trim_both(s, drop)).len() <= encode_utf8(s).len(),
{
    lemma_trim_start_is_shorter(s, drop);
    lemma_trim_end_is_shorter(trim_start(s, drop), drop);
}

proof fn lemma_trim_start_is_shorter(s: Seq<char>, drop: spec_fn(char) -> bool)
    ensures
        encode_utf8(trim_start(s, drop)).len() <= encode_utf8(s).len(),
    decreases s.len(),
{
    if s.len() > 0 && drop(s[0]) {
        lemma_trim_start_is_shorter(s.drop_first(), drop);
        lemma_part_is_shorter(s, 1, s.len() as int);
    }
}

proof fn lemma_trim_end_is_shorter(s: Seq<char>, drop: spec_fn(char) -> bool)
    ensures
        encode_utf8(trim_end(s, drop)).len() <= encode_utf8(s).len(),
    decreases s.len(),
{
    if s.len() > 0 && drop(s.last()) {
        lemma_trim_end_is_shorter(s.drop_last(), drop);
        lemma_part_is_shorter(s, 0, s.len() - 1);
    }
}

/// A text that splits is made of the two parts and the character between them.
pub proof fn lemma_split_first_parts(s: Seq<char>, c: char)
    ensures
        split_first(s, c) matches Some((before, after)) ==> {
            &&& s == before + seq![c] + after
            &&& !before.contains(c)
            &&& encode_utf8(before).len() <= encode_utf8(s).len()
            &&& encode_utf8(after).len() <= encode_utf8(s).len()
        },
    decreases s.len(),
{
    if let Some((before, after)) = split_first(s, c) {
        let n = before.len() as int;
        if s[0] != c {
            lemma_split_first_parts(s.drop_first(), c);
            let (rest, _) = split_first(s.drop_first(), c).unwrap();
            if before.contains(c) {
                let i = choose|i: int| 0 <= i < before.len() && before[i] == c;
                assert(rest[i - 1] == c);
            }
            assert(s =~= seq![s[0]] + s.drop_first());
        }
        assert(s =~= before + seq![c] + after);
        assert(s.subrange(0, n) =~= before);
        assert(s.subrange(n + 1, s.len() as int) =~= after);
        lemma_part_is_shorter(s, 0, n);
        lemma_part_is_shorter(s, n + 1, s.len() as int);
    }
}

/// Trimming leaves a text alone whose two ends are not dropped.
pub proof fn lemma_trim_nothing(s: Seq<char>, drop: spec_fn(char) -> bool)
    requires
        s.len() > 0 ==> !drop(s[0]) && !drop(s.last()),
    ensures
        trim_both(s, drop) == s,
{
}

/// Whether `a` and `b` are the same text.
pub fn same(a: &str, b: &str) -> (r: bool)
    ensures
        r == (a@ == b@),
{
    let x = a.as_bytes();
    let y = b.as_bytes();
    if x.len() != y.len() {
        return false;
    }
    let mut i: usize = 0;
    while i < x.len()
        invariant
            i <= x@.len(),
            x@.len() == y@.len(),
            x@ == encode_utf8(a@),
            y@ == encode_utf8(b@),
            forall|j: int| 0 <= j < i ==> x@[j] == y@[j],
        decreases x@.len() - i,
    {
        if x[i] != y[i] {
            return false;
        }
        i += 1;
    }
    proof {
        assert(x@ =~= y@);
        lemma_utf8_injective(a@, b@);
    }
    true
}

/// The characters of `s`.
pub fn chars_of(s: &str) -> (v: Vec<char>)
    ensures
        v@ == s@,
{
    let mut v: Vec<char> = Vec::new();
    for c in it: s.chars()
        invariant
            it.seq() == s@,
            v@ == s@.take(it.index()),
    {
        v.push(c);
    }
    v
}

/// The rest of `s` behind `prefix`, where `s` begins with it.
pub fn strip_prefix<'a>(s: &'a str, prefix: &str) -> (r: Option<&'a str>)
    ensures
        match r {
            Some(rest) => has_prefix(s@, prefix@) && rest@ == s@.skip(prefix@.len() as int),
            None => !has_prefix(s@, prefix@),
        },
        r matches Some(rest) ==> s@ == prefix@ + rest@,
{
    let n = prefix.unicode_len();
    let m = s.unicode_len();
    if m < n {
        return None;
    }
    if same(s.substring_char(0, n), prefix) {
        let rest = s.substring_char(n, m);
        assert(s@ =~= prefix@ + rest@);
        Some(rest)
    } else {
        None
    }
}

/// `s` without the characters at its two ends for which `f` holds.
fn trim_by<'a, F: Fn(char) -> bool>(
    s: &'a str,
    f: F,
    Ghost(drop): Ghost<spec_fn(char) -> bool>,
) -> (r: &'a str)
    requires
        forall|c: char| call_requires(f, (c,)),
        forall|c: char, b: bool| call_ensures(f, (c,), b) ==> b == drop(c),
    ensures
        r@ == trim_both(s@, drop),
{
    let v = chars_of(s);
    let n = v.len();
    let mut i: usize = 0;
    assert(s@.skip(0) =~= s@);
    loop
        invariant
            i <= n,
            n == v@.len(),
            v@ == s@,
            forall|c: char| call_requires(f, (c,)),
            forall|c: char, b: bool| call_ensures(f, (c,), b) ==> b == drop(c),
            trim_start(s@.skip(i as int), drop) == trim_start(s@, drop),
        ensures
            i <= n,
            s@.skip(i as int) == trim_start(s@, drop),
        decreases n - i,
    {
        if i == n {
            break;
        }
        if !f(v[i]) {
            break;
        }
        assert(s@.skip(i as int).drop_first() =~= s@.skip(i + 1));
        i += 1;
    }
    let ghost t = s@.skip(i as int);
    let mut j: usize = n;
    assert(s@.subrange(i as int, n as int) =~= t);
    loop
        invariant
            i <= j <= n,
            n == v@.len(),
            v@ == s@,
            forall|c: char| call_requires(f, (c,)),
            forall|c: char, b: bool| call_ensures(f, (c,), b) ==> b == drop(c),
            trim_end(s@.subrange(i as int, j as int), drop) == trim_end(t, drop),
        ensures
            i <= j <= n,
            s@.subrange(i as int, j as int) == trim_end(t, drop),
        decreases j,
    {
        if j == i {
            break;
        }
        assert(s@.subrange(i as int, j as int).last() == v@[j - 1]);
        if !f(v[j - 1]) {
            break;
        }
        assert(s@.subrange(i as int, j as int).drop_last() =~= s@.subrange(i as int, j - 1));
        j -= 1;
    }
    s.substring_char(i, j)
}

/// `s` without the occurrences of `c` at its two ends.
pub fn trim_matches<'a>(s: &'a str, c: char) -> (r: &'a str)
    ensures
        r@ == trim_char(s@, c),
{
    let is_c = |x: char| -> (b: bool)
        ensures
            b == (x == c),
        { x == c };
    trim_by(s, is_c, Ghost(equals(c)))
}

/// `s` without the white space at its two ends.
pub fn trim<'a>(s: &'a str) -> (r: &'a str)
    ensures
        r@ == trim_space(s@),
{
    let is_space = |x: char| -> (b: bool)
        ensures
            b == white_space(x),
        { is_whitespace(x) };
    trim_by(s, is_space, Ghost(|x: char| white_space(x)))
}

/// Whether the character has the Unicode property `White_Space`.
fn is_whitespace(c: char) -> (r: bool)
    ensures
        r == white_space(c),
{
    let n = c as u32;
    (0x09 <= n && n <= 0x0d) || n == 0x20 || n == 0x85 || n == 0xa0 || n == 0x1680 || (0x2000 <= n
        && n <= 0x200a) || n == 0x2028 || n == 0x2029 || n == 0x202f || n == 0x205f || n == 0x3000
}

/// The parts of `s` before and after the first occurrence of `c`.
pub fn split_once<'a>(s: &'a str, c: char) -> (r: Option<(&'a str, &'a str)>)
    ensures
        match r {
            Some((before, after)) => split_first(s@, c) == Some((before@, after@)),
            None => split_first(s@, c) is None,
        },
{
    let v = chars_of(s);
    let n = v.len();
    let mut i: usize = 0;
    while i < n
        invariant
            i <= n,
            n == v@.len(),
            v@ == s@,
            forall|j: int| 0 <= j < i ==> s@[j] != c,
        decreases n - i,
    {
        if v[i] == c {
            let before = s.substring_char(0, i);
            let after = s.substring_char(i + 1, n);
            proof {
                assert(s@ =~= before@ + seq![c] + after@);
                lemma_split_first(before@, c, after@);
            }
            return Some((before, after));
        }
        i += 1;
    }
    proof {
        lemma_split_first_none(s@, c);
    }
    None
}

/// The part of `s` after the last occurrence of `c`, or the whole of it.
pub fn rest_after_last<'a>(s: &'a str, c: char) -> (r: &'a str)
    ensures
        r@ == after_last(s@, c),
{
    let v = chars_of(s);
    let n = v.len();
    let mut i: usize = n;
    assert(s@.take(n as int) =~= s@);
    assert(s@.skip(n as int) =~= Seq::<char>::empty());
    assert(after_last(s@, c) =~= after_last(s@, c) + s@.skip(n as int));
    while i > 0
        invariant
            i <= n,
            n == v@.len(),
            v@ == s@,
            after_last(s@, c) == after_last(s@.take(i as int), c) + s@.skip(i as int),
        decreases i,
    {
        let ghost t = s@.take(i as int);
        if v[i - 1] == c {
            let r = s.substring_char(i, n);
            assert(t.last() == c);
            assert(r@ =~= after_last(s@, c));
            return r;
        }
        proof {
            assert(t.last() == s@[i - 1]);
            assert(t.drop_last() =~= s@.take(i - 1));
            assert(after_last(t.drop_last(), c).push(s@[i - 1]) + s@.skip(i as int) =~= after_last(
                t.drop_last(),
                c,
            ) + s@.skip(i - 1));
        }
        i -= 1;
    }
    assert(s@.take(0) =~= Seq::<char>::empty());
    assert(after_last(s@, c) =~= s@);
    s
}

/// `s` without a newline at its end.
pub open spec fn without_newline(s: Seq<char>) -> Seq<char> {
    if s.len() > 0 && s.last() == '\n' {
        s.drop_last()
    } else {
        s
    }
}

/// `s` without a newline at its end.
pub fn strip_newline<'a>(s: &'a str) -> (r: &'a str)
    ensures
        r@ == without_newline(s@),
        s@ == r@ || s@ == r@.push('\n'),
        s@.len() > 0 && s@.last() == '\n' ==> s@ == r@.push('\n'),
{
    let v = chars_of(s);
    let n = v.len();
    if n > 0 && v[n - 1] == '\n' {
        let r = s.substring_char(0, n - 1);
        assert(r@ =~= s@.drop_last());
        assert(s@ =~= r@.push('\n'));
        r
    } else {
        s
    }
}

/// The first `n` characters of `s`, or all of them where there are fewer.
pub fn first_chars(s: &str, n: usize) -> (r: String)
    ensures
        r@ == (if n <= s@.len() {
            s@.take(n as int)
        } else {
            s@
        }),
{
    let m = s.unicode_len();
    let k: usize = if n <= m {
        n
    } else {
        m
    };
    let part = s.substring_char(0, k);
    assert(part@ =~= s@.take(k as int));
    assert(s@.take(m as int) =~= s@);
    part.to_owned()
}

/// `n` in decimal digits.
pub open spec fn decimal(n: nat) -> Seq<char>
    decreases n,
{
    let digit = ('0' as u32 + n % 10) as char;
    if n < 10 {
        seq![digit]
    } else {
        decimal(n / 10).push(digit)
    }
}

/// `n` in decimal digits.
pub fn decimal_usize(n: usize) -> (r: String)
    ensures
        r@ == decimal(n as nat),
    decreases n,
{
    let d: usize = n % 10;
    let last: &str = match d {
        0 => "0",
        1 => "1",
        2 => "2",
        3 => "3",
        4 => "4",
        5 => "5",
        6 => "6",
        7 => "7",
        8 => "8",
        _ => "9",
    };
    proof {
        reveal_strlit("0");
        reveal_strlit("1");
        reveal_strlit("2");
        reveal_strlit("3");
        reveal_strlit("4");
        reveal_strlit("5");
        reveal_strlit("6");
        reveal_strlit("7");
        reveal_strlit("8");
        reveal_strlit("9");
        assert(last@ =~= seq![('0' as u32 + d) as char]);
    }
    if n < 10 {
        last.to_owned()
    } else {
        let head = decimal_usize(n / 10);
        let r = join(head.as_str(), last);
        assert(r@ =~= decimal((n / 10) as nat).push(('0' as u32 + d) as char));
        r
    }
}

/// The texts `a` and `b`, one behind the other.
pub fn join(a: &str, b: &str) -> (r: String)
    ensures
        r@ == a@ + b@,
{
    let mut s = a.to_owned();
    s.append(b);
    s
}

/// A text begins with a prefix exactly where something behind the prefix makes up the text.
pub proof fn law_prefix(s: Seq<char>, prefix: Seq<char>)
    ensures
        has_prefix(s, prefix) <==> exists|rest: Seq<char>| s == #[trigger] (prefix + rest),
{
    if has_prefix(s, prefix) {
        assert(s =~= prefix + s.skip(prefix.len() as int));
    }
    if exists|rest: Seq<char>| s == #[trigger] (prefix + rest) {
        let rest = choose|rest: Seq<char>| s == #[trigger] (prefix + rest);
        assert((prefix + rest).take(prefix.len() as int) =~= prefix);
    }
}

/// Trimming takes off what is dropped around a middle whose two ends are not dropped, and
/// gives the whole of that middle.
pub proof fn law_trim_gives_the_middle(
    before: Seq<char>,
    middle: Seq<char>,
    after: Seq<char>,
    drop: spec_fn(char) -> bool,
)
    requires
        forall|i: int| 0 <= i < before.len() ==> drop(#[trigger] before[i]),
        forall|i: int| 0 <= i < after.len() ==> drop(#[trigger] after[i]),
        middle.len() > 0 ==> !drop(middle[0]) && !drop(middle.last()),
    ensures
        trim_both(before + middle + after, drop) == middle,
{
    let tail = middle + after;
    assert(before + middle + after =~= before + tail);
    lemma_trim_start_drops(before, tail, drop);
    if middle.len() == 0 {
        assert(tail =~= after + Seq::<char>::empty());
        lemma_trim_start_drops(after, Seq::empty(), drop);
        assert(middle =~= Seq::<char>::empty());
    } else {
        assert(tail[0] == middle[0]);
        lemma_trim_end_drops(middle, after, drop);
    }
}

proof fn lemma_trim_start_drops(before: Seq<char>, rest: Seq<char>, drop: spec_fn(char) -> bool)
    requires
        forall|i: int| 0 <= i < before.len() ==> drop(#[trigger] before[i]),
    ensures
        trim_start(before + rest, drop) == trim_start(rest, drop),
    decreases before.len(),
{
    if before.len() == 0 {
        assert(before + rest =~= rest);
    } else {
        let tail = before.drop_first();
        assert((before + rest)[0] == before[0]);
        assert((before + rest).drop_first() =~= tail + rest);
        assert forall|i: int| 0 <= i < tail.len() implies drop(#[trigger] tail[i]) by {
            assert(tail[i] == before[i + 1]);
        }
        lemma_trim_start_drops(tail, rest, drop);
    }
}

proof fn lemma_trim_end_drops(rest: Seq<char>, after: Seq<char>, drop: spec_fn(char) -> bool)
    requires
        forall|i: int| 0 <= i < after.len() ==> drop(#[trigger] after[i]),
    ensures
        trim_end(rest + after, drop) == trim_end(rest, drop),
    decreases after.len(),
{
    if after.len() == 0 {
        assert(rest + after =~= rest);
    } else {
        let head = after.drop_last();
        assert((rest + after).last() == after[after.len() - 1]);
        assert((rest + after).drop_last() =~= rest + head);
        assert forall|i: int| 0 <= i < head.len() implies drop(#[trigger] head[i]) by {
            assert(head[i] == after[i]);
        }
        lemma_trim_end_drops(rest, head, drop);
    }
}

/// Occurrences of a character around a text whose two ends are other characters are
/// trimmed, however many they are, and the text is kept whole.
pub proof fn law_trim_char(lead: nat, middle: Seq<char>, trail: nat, c: char)
    requires
        middle.len() > 0 ==> middle[0] != c && middle.last() != c,
    ensures
        trim_char(Seq::new(lead, |i: int| c) + middle + Seq::new(trail, |i: int| c), c) == middle,
{
    law_trim_gives_the_middle(
        Seq::new(lead, |i: int| c),
        middle,
        Seq::new(trail, |i: int| c),
        equals(c),
    );
}

/// White space around a text whose two ends are none is trimmed, and the text is kept
/// whole.
pub proof fn law_trim_space(before: Seq<char>, middle: Seq<char>, after: Seq<char>)
    requires
        forall|i: int| 0 <= i < before.len() ==> white_space(#[trigger] before[i]),
        forall|i: int| 0 <= i < after.len() ==> white_space(#[trigger] after[i]),
        middle.len() > 0 ==> !white_space(middle[0]) && !white_space(middle.last()),
    ensures
        trim_space(before + middle + after) == middle,
{
    law_trim_gives_the_middle(before, middle, after, |x: char| white_space(x));
}

/// The part behind the last `c` is all that stands there, and the whole of a text without
/// `c`.
pub proof fn law_after_last(before: Seq<char>, c: char, after: Seq<char>)
    requires
        !after.contains(c),
    ensures
        after_last(before + seq![c] + after, c) == after,
        after_last(after, c) == after,
    decreases after.len(),
{
    let s = before + seq![c] + after;
    if after.len() == 0 {
        assert(s.last() == c);
        assert(after =~= Seq::<char>::empty());
    } else {
        let head = after.drop_last();
        assert(after[after.len() - 1] != c);
        if head.contains(c) {
            let i = choose|i: int| 0 <= i < head.len() && head[i] == c;
            assert(after[i] == c);
        }
        law_after_last(before, c, head);
        assert(s.drop_last() =~= before + seq![c] + head);
        assert(head.push(after.last()) =~= after);
    }
}

/// A newline at the end is taken off, and nothing else, however long the text is.
pub proof fn law_without_newline(s: Seq<char>)
    ensures
        without_newline(s.push('\n')) == s,
        s.len() == 0 || s.last() != '\n' ==> without_newline(s) == s,
{
    assert(s.push('\n').drop_last() =~= s);
}

/// A number in decimal is its tenth in decimal and behind it the digit for the remainder;
/// a number below ten is that digit alone.
pub proof fn law_decimal(n: nat, d: nat)
    requires
        d < 10,
    ensures
        decimal(d) == seq!["0123456789"@[d as int]],
        n > 0 ==> decimal(10 * n + d) == decimal(n).push("0123456789"@[d as int]),
{
    reveal_strlit("0123456789");
    assert((10 * n + d) / 10 == n && (10 * n + d) % 10 == d);
}

/// The view of an optional text is the text, where there is one.
pub proof fn law_view_of(s: &str)
    ensures
        view_of(Some(s)) == Some(s@),
        view_of(None) is None,
{
}

/// `std::string::FromUtf8Error`: why bytes are no text.
#[verifier::external_type_specification]
#[verifier::external_body]
pub struct ExFromUtf8Error(FromUtf8Error);

/// The error that `String::from_utf8` gives for bytes that are not UTF-8.
pub uninterp spec fn utf8_error(bytes: Seq<u8>) -> FromUtf8Error;

/// `String::from_utf8`: the text whose UTF-8 encoding the bytes are. It fails on
/// bytes that are not valid UTF-8, and on no others.
#[verifier::external_body]
pub(crate) fn from_utf8(bytes: Vec<u8>) -> (r: Result<String, FromUtf8Error>)
    ensures
        match r {
            Ok(s) => valid_utf8(bytes@) && s@ == decode_utf8(bytes@),
            Err(e) => !valid_utf8(bytes@) && e == utf8_error(bytes@),
        },
{
    String::from_utf8(bytes)
}

/// How a `FromUtf8Error` displays itself.
pub uninterp spec fn utf8_error_words(e: FromUtf8Error) -> Seq<char>;

/// `ToString` on a `FromUtf8Error`: the text that the error displays.
#[verifier::external_body]
pub(crate) fn utf8_error_text(e: &FromUtf8Error) -> (r: String)
    ensures
        r@ == utf8_error_words(*e),
{
    e.to_string()
}

} // verus!
