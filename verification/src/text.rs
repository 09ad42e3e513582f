//! Text operations on `&str`, stated over sequences of characters.
use vstd::prelude::*;
use vstd::std_specs::iter::*;
use vstd::string::*;

verus! {

// ---- specification ----

/// The characters with the Unicode property `White_Space`.
pub open spec fn white_space(c: char) -> bool {
    let u = c as u32;
    ||| 0x9 <= u <= 0xD
    ||| u == 0x20
    ||| u == 0x85
    ||| u == 0xA0
    ||| u == 0x1680
    ||| 0x2000 <= u <= 0x200A
    ||| u == 0x2028
    ||| u == 0x2029
    ||| u == 0x202F
    ||| u == 0x205F
    ||| u == 0x3000
}

/// `s` without its leading white space.
pub open spec fn trimmed_start(s: Seq<char>) -> Seq<char>
    decreases s.len(),
{
    if s.len() > 0 && white_space(s[0]) {
        trimmed_start(s.skip(1))
    } else {
        s
    }
}

/// `s` without its trailing white space.
pub open spec fn trimmed_end(s: Seq<char>) -> Seq<char>
    decreases s.len(),
{
    if s.len() > 0 && white_space(s.last()) {
        trimmed_end(s.drop_last())
    } else {
        s
    }
}

/// `s` without leading and trailing white space.
pub open spec fn trimmed(s: Seq<char>) -> Seq<char> {
    trimmed_end(trimmed_start(s))
}

/// Whether `s` holds nothing but white space.
pub open spec fn blank(s: Seq<char>) -> bool {
    forall|i: int| 0 <= i < s.len() ==> white_space(#[trigger] s[i])
}

/// The position of the first `c` in `s`, or the length of `s`.
pub open spec fn position(s: Seq<char>, c: char) -> nat
    decreases s.len(),
{
    if s.len() == 0 || s[0] == c {
        0
    } else {
        1 + position(s.skip(1), c)
    }
}

/// The pieces of `s` between the occurrences of `sep`.
pub open spec fn pieces(s: Seq<char>, sep: char) -> Seq<Seq<char>>
    decreases s.len(),
{
    let at = position(s, sep) as int;
    if at < s.len() {
        seq![s.take(at)] + pieces(s.skip(at + 1), sep)
    } else {
        seq![s]
    }
}

/// What stands before and behind the first `sep` in `s`, if there is one.
pub open spec fn cut(s: Seq<char>, sep: char) -> Option<(Seq<char>, Seq<char>)> {
    let at = position(s, sep) as int;
    if at < s.len() {
        Some((s.take(at), s.skip(at + 1)))
    } else {
        None
    }
}

/// The decimal digit for `d`.
pub open spec fn digit(d: nat) -> char {
    if d == 0 {
        '0'
    } else if d == 1 {
        '1'
    } else if d == 2 {
        '2'
    } else if d == 3 {
        '3'
    } else if d == 4 {
        '4'
    } else if d == 5 {
        '5'
    } else if d == 6 {
        '6'
    } else if d == 7 {
        '7'
    } else if d == 8 {
        '8'
    } else {
        '9'
    }
}

/// `n` in decimal, without leading zeros.
pub open spec fn decimal(n: nat) -> Seq<char>
    decreases n,
{
    if n < 10 {
        seq![digit(n)]
    } else {
        decimal(n / 10).push(digit(n % 10))
    }
}

/// The texts of a list of strings.
pub open spec fn texts(list: Seq<String>) -> Seq<Seq<char>> {
    list.map_values(|s: String| s@)
}

/// The text of an optional string.
pub open spec fn opt_text(s: Option<String>) -> Option<Seq<char>> {
    match s {
        Some(t) => Some(t@),
        None => None,
    }
}

// ---- lemmas ----

proof fn lemma_position(s: Seq<char>, c: char, at: int)
    requires
        0 <= at <= s.len(),
        forall|i: int| 0 <= i < at ==> s[i] != c,
        at < s.len() ==> s[at] == c,
    ensures
        position(s, c) == at,
    decreases s.len(),
{
    if at > 0 {
        lemma_position(s.skip(1), c, at - 1);
    }
}

proof fn lemma_trimmed_start(s: Seq<char>, at: int)
    requires
        0 <= at <= s.len(),
        forall|i: int| 0 <= i < at ==> white_space(s[i]),
        at < s.len() ==> !white_space(s[at]),
    ensures
        trimmed_start(s) == s.skip(at),
    decreases s.len(),
{
    if at > 0 {
        lemma_trimmed_start(s.skip(1), at - 1);
        assert(s.skip(1).skip(at - 1) =~= s.skip(at));
    } else {
        assert(s.skip(0) =~= s);
    }
}

proof fn lemma_trimmed_end(s: Seq<char>, at: int)
    requires
        0 <= at <= s.len(),
        forall|i: int| at <= i < s.len() ==> white_space(s[i]),
        at > 0 ==> !white_space(s[at - 1]),
    ensures
        trimmed_end(s) == s.take(at),
    decreases s.len(),
{
    if at < s.len() {
        lemma_trimmed_end(s.drop_last(), at);
        assert(s.drop_last().take(at) =~= s.take(at));
    } else {
        assert(s.take(at) =~= s);
    }
}

/// A text is blank exactly when trimming leaves nothing of it.
pub proof fn lemma_blank_is_trimmed_empty(s: Seq<char>)
    ensures
        blank(s) <==> trimmed(s).len() == 0,
    decreases s.len(),
{
    if s.len() > 0 && white_space(s[0]) {
        lemma_blank_is_trimmed_empty(s.skip(1));
        if blank(s.skip(1)) {
            assert forall|i: int| 0 <= i < s.len() implies white_space(#[trigger] s[i]) by {
                if i > 0 {
                    assert(s[i] == s.skip(1)[i - 1]);
                }
            }
        }
        if blank(s) {
            assert forall|i: int| 0 <= i < s.skip(1).len() implies white_space(
                #[trigger] s.skip(1)[i],
            ) by {
                assert(s.skip(1)[i] == s[i + 1]);
            }
        }
    } else if s.len() > 0 {
        lemma_trimmed_end_keeps_first(s);
    }
}

proof fn lemma_trimmed_end_keeps_first(s: Seq<char>)
    requires
        s.len() > 0,
        !white_space(s[0]),
    ensures
        trimmed_end(s).len() > 0,
    decreases s.len(),
{
    if white_space(s.last()) {
        lemma_trimmed_end_keeps_first(s.drop_last());
    }
}

// ---- operations ----

/// The characters of `s`.
pub fn chars_of(s: &str) -> (v: Vec<char>)
    ensures
        v@ == s@,
{
    let mut v: Vec<char> = Vec::new();
    for c in it: s.chars()
        invariant
            it.seq() == s@,
            v@ == it.seq().take(it.index() as int),
    {
        v.push(c);
        assert(it.seq().take(it.index() + 1) =~= it.seq().take(it.index() as int).push(c));
    }
    assert(s@.take(s@.len() as int) =~= s@);
    v
}

/// Whether two texts are the same.
pub fn same_text(a: &str, b: &str) -> (r: bool)
    ensures
        r == (a@ == b@),
{
    let mut left = a.chars();
    let mut right = b.chars();
    let ghost mut n: int = 0;
    assert(a@.skip(0) =~= a@);
    assert(b@.skip(0) =~= b@);
    loop
        invariant
            0 <= n <= a@.len(),
            n <= b@.len(),
            IteratorSpec::remaining(&left) == a@.skip(n),
            IteratorSpec::remaining(&right) == b@.skip(n),
            IteratorSpec::obeys_prophetic_iter_laws(&left),
            IteratorSpec::obeys_prophetic_iter_laws(&right),
            forall|i: int| 0 <= i < n ==> a@[i] == b@[i],
        decreases a@.len() - n,
    {
        let x = left.next();
        let y = right.next();
        match (x, y) {
            (Some(c), Some(d)) => {
                if c != d {
                    assert(a@[n] == a@.skip(n)[0]);
                    assert(b@[n] == b@.skip(n)[0]);
                    return false;
                }
                proof {
                    assert(a@[n] == a@.skip(n)[0]);
                    assert(b@[n] == b@.skip(n)[0]);
                    assert(a@.skip(n).drop_first() =~= a@.skip(n + 1));
                    assert(b@.skip(n).drop_first() =~= b@.skip(n + 1));
                    n = n + 1;
                }
            },
            (None, None) => {
                assert(a@ =~= b@);
                return true;
            },
            (Some(_), None) => {
                return false;
            },
            (None, Some(_)) => {
                return false;
            },
        }
    }
}

/// Whether `prefix` stands at the start of `s`.
pub fn starts_with(s: &str, prefix: &str) -> (r: bool)
    ensures
        r == prefix@.is_prefix_of(s@),
{
    let mut left = s.chars();
    let mut right = prefix.chars();
    let ghost mut n: int = 0;
    assert(s@.skip(0) =~= s@);
    assert(prefix@.skip(0) =~= prefix@);
    loop
        invariant
            0 <= n <= s@.len(),
            n <= prefix@.len(),
            IteratorSpec::remaining(&left) == s@.skip(n),
            IteratorSpec::remaining(&right) == prefix@.skip(n),
            IteratorSpec::obeys_prophetic_iter_laws(&left),
            IteratorSpec::obeys_prophetic_iter_laws(&right),
            forall|i: int| 0 <= i < n ==> s@[i] == prefix@[i],
        decreases s@.len() - n,
    {
        let y = right.next();
        match y {
            None => {
                assert(prefix@ =~= s@.subrange(0, prefix@.len() as int));
                return true;
            },
            Some(d) => {
                assert(prefix@[n] == prefix@.skip(n)[0]);
                let x = left.next();
                match x {
                    None => {
                        return false;
                    },
                    Some(c) => {
                        assert(s@[n] == s@.skip(n)[0]);
                        if c != d {
                            assert(prefix@.len() <= s@.len() ==> s@.subrange(
                                0,
                                prefix@.len() as int,
                            )[n] != prefix@[n]);
                            return false;
                        }
                        proof {
                            assert(s@.skip(n).drop_first() =~= s@.skip(n + 1));
                            assert(prefix@.skip(n).drop_first() =~= prefix@.skip(n + 1));
                            n = n + 1;
                        }
                    },
                }
            },
        }
    }
}

/// Whether `c` is white space.
pub fn is_white_space(c: char) -> (r: bool)
    ensures
        r == white_space(c),
{
    let u = c as u32;
    (0x9 <= u && u <= 0xD) || u == 0x20 || u == 0x85 || u == 0xA0 || u == 0x1680 || (0x2000 <= u
        && u <= 0x200A) || u == 0x2028 || u == 0x2029 || u == 0x202F || u == 0x205F || u == 0x3000
}

/// Whether nothing but white space is in `s`.
pub fn is_blank(s: &str) -> (r: bool)
    ensures
        r == blank(s@),
        r == (trimmed(s@).len() == 0),
{
    proof {
        lemma_blank_is_trimmed_empty(s@);
    }
    let cs = chars_of(s);
    let mut i: usize = 0;
    while i < cs.len()
        invariant
            i <= cs@.len(),
            cs@ == s@,
            blank(s@) <==> trimmed(s@).len() == 0,
            forall|j: int| 0 <= j < i ==> white_space(#[trigger] s@[j]),
        decreases cs@.len() - i,
    {
        if !is_white_space(cs[i]) {
            assert(!white_space(s@[i as int]));
            return false;
        }
        i += 1;
    }
    true
}

/// `s` without leading and trailing white space.
pub fn trim(s: &str) -> (r: &str)
    ensures
        r@ == trimmed(s@),
{
    let cs = chars_of(s);
    let mut from: usize = 0;
    while from < cs.len() && is_white_space(cs[from])
        invariant
            from <= cs@.len(),
            cs@ == s@,
            forall|j: int| 0 <= j < from ==> white_space(#[trigger] s@[j]),
        decreases cs@.len() - from,
    {
        from += 1;
    }
    proof {
        lemma_trimmed_start(s@, from as int);
    }
    let mut to: usize = cs.len();
    while to > from && is_white_space(cs[to - 1])
        invariant
            from <= to <= cs@.len(),
            cs@ == s@,
            forall|j: int| to <= j < s@.len() ==> white_space(#[trigger] s@[j]),
        decreases to,
    {
        to -= 1;
    }
    proof {
        let rest = s@.skip(from as int);
        assert forall|i: int| to - from <= i < rest.len() implies white_space(rest[i]) by {
            assert(rest[i] == s@[i + from]);
        }
        lemma_trimmed_end(rest, to - from);
        assert(rest.take(to - from) =~= s@.subrange(from as int, to as int));
    }
    s.substring_char(from, to)
}

/// The first position of `c` in `cs` from `from` on, or the end.
fn find_from(cs: &Vec<char>, from: usize, c: char) -> (at: usize)
    requires
        from <= cs@.len(),
    ensures
        from <= at <= cs@.len(),
        at - from == position(cs@.skip(from as int), c),
        at < cs@.len() ==> cs@[at as int] == c,
{
    let mut at: usize = from;
    while at < cs.len() && cs[at] != c
        invariant
            from <= at <= cs@.len(),
            forall|i: int| from <= i < at ==> cs@[i] != c,
        decreases cs@.len() - at,
    {
        at += 1;
    }
    proof {
        lemma_position(cs@.skip(from as int), c, at - from);
    }
    at
}

/// The pieces of `s` between the occurrences of `sep`.
pub fn split(s: &str, sep: char) -> (r: Vec<String>)
    ensures
        texts(r@) == pieces(s@, sep),
{
    let cs = chars_of(s);
    let mut r: Vec<String> = Vec::new();
    let mut from: usize = 0;
    assert(s@.skip(0) =~= s@);
    assert(texts(r@) + pieces(s@, sep) =~= pieces(s@, sep));
    loop
        invariant
            from <= cs@.len(),
            cs@ == s@,
            texts(r@) + pieces(s@.skip(from as int), sep) == pieces(s@, sep),
        decreases cs@.len() - from,
    {
        let at = find_from(&cs, from, sep);
        let ghost rest = s@.skip(from as int);
        let piece = s.substring_char(from, at).to_owned();
        assert(piece@ =~= rest.take(at - from));
        let ghost before = r@;
        r.push(piece);
        assert(texts(r@) =~= texts(before).push(piece@));
        if at >= cs.len() {
            assert(rest.take(at - from) =~= rest);
            assert(texts(r@) =~= texts(before) + pieces(rest, sep));
            return r;
        }
        assert(rest.skip(at - from + 1) =~= s@.skip(at + 1));
        assert(texts(r@) + pieces(s@.skip(at + 1), sep) =~= texts(before) + pieces(rest, sep));
        from = at + 1;
    }
}

/// What stands before and behind the first `sep` in `s`.
pub fn split_once(s: &str, sep: char) -> (r: Option<(String, String)>)
    ensures
        match r {
            Some((a, b)) => cut(s@, sep) == Some((a@, b@)),
            None => cut(s@, sep) is None,
        },
{
    let cs = chars_of(s);
    let at = find_from(&cs, 0, sep);
    assert(s@.skip(0) =~= s@);
    if at < cs.len() {
        let a = s.substring_char(0, at).to_owned();
        let b = s.substring_char(at + 1, cs.len()).to_owned();
        assert(a@ =~= s@.take(at as int));
        assert(b@ =~= s@.skip(at + 1));
        Some((a, b))
    } else {
        None
    }
}

fn digit_text(d: u64) -> (r: &'static str)
    requires
        d < 10,
    ensures
        r@ == seq![digit(d as nat)],
{
    proof {
        reveal_strlit("0");
        reveal_strlit("1");
        reveal_strlit("2");
        reveal_strlit("3");
        reveal_strlit("4");
        reveal_strlit("5");
        reveal_strlit("6");
        reveal_strlit("7");
        reveal_strlit("8");
        reveal_strlit("9");
    }
    let r = if d == 0 {
        "0"
    } else if d == 1 {
        "1"
    } else if d == 2 {
        "2"
    } else if d == 3 {
        "3"
    } else if d == 4 {
        "4"
    } else if d == 5 {
        "5"
    } else if d == 6 {
        "6"
    } else if d == 7 {
        "7"
    } else if d == 8 {
        "8"
    } else {
        "9"
    };
    assert(r@ =~= seq![digit(d as nat)]);
    r
}

/// `n` in decimal.
pub fn decimal_text(n: u64) -> (r: String)
    ensures
        r@ == decimal(n as nat),
    decreases n,
{
    if n < 10 {
        digit_text(n).to_owned()
    } else {
        let mut r = decimal_text(n / 10);
        let ghost high = r@;
        r.append(digit_text(n % 10));
        assert(r@ =~= high.push(digit((n % 10) as nat)));
        r
    }
}

/// A copy of a list of strings.
pub fn copy_texts(list: &Vec<String>) -> (r: Vec<String>)
    ensures
        r@ == list@,
        texts(r@) == texts(list@),
{
    let r = list.clone();
    assert(r@ =~= list@);
    r
}

/// A copy of an optional string.
pub fn copy_opt(s: &Option<String>) -> (r: Option<String>)
    ensures
        r == *s,
        opt_text(r) == opt_text(*s),
{
    match s {
        Some(t) => Some(t.clone()),
        None => None,
    }
}

/// Whether `s` is one of `list`.
pub fn contains_text(list: &Vec<String>, s: &str) -> (r: bool)
    ensures
        r == texts(list@).contains(s@),
{
    let mut i: usize = 0;
    while i < list.len()
        invariant
            i <= list@.len(),
            forall|j: int| 0 <= j < i ==> texts(list@)[j] != s@,
        decreases list@.len() - i,
    {
        if same_text(list[i].as_str(), s) {
            assert(texts(list@)[i as int] == s@);
            return true;
        }
        assert(texts(list@)[i as int] == list@[i as int]@);
        i += 1;
    }
    false
}

/// Whether two lists of strings hold the same texts in the same order.
pub fn same_texts(a: &Vec<String>, b: &Vec<String>) -> (r: bool)
    ensures
        r == (texts(a@) == texts(b@)),
{
    if a.len() != b.len() {
        assert(texts(a@).len() != texts(b@).len());
        return false;
    }
    let mut i: usize = 0;
    while i < a.len()
        invariant
            i <= a@.len(),
            a@.len() == b@.len(),
            forall|j: int| 0 <= j < i ==> texts(a@)[j] == texts(b@)[j],
        decreases a@.len() - i,
    {
        assert(texts(a@)[i as int] == a@[i as int]@);
        assert(texts(b@)[i as int] == b@[i as int]@);
        if !same_text(a[i].as_str(), b[i].as_str()) {
            return false;
        }
        i += 1;
    }
    assert(texts(a@) =~= texts(b@));
    true
}

/// Whether two optional strings hold the same text.
pub fn same_opt(a: &Option<String>, b: &Option<String>) -> (r: bool)
    ensures
        r == (opt_text(*a) == opt_text(*b)),
{
    match (a, b) {
        (Some(x), Some(y)) => same_text(x.as_str(), y.as_str()),
        (None, None) => true,
        _ => false,
    }
}

/// `a` followed by `b`.
pub fn join2(a: &str, b: &str) -> (r: String)
    ensures
        r@ == a@ + b@,
{
    let mut r = a.to_owned();
    r.append(b);
    r
}

/// `a`, `b` and `c`, one behind the other.
pub fn join3(a: &str, b: &str, c: &str) -> (r: String)
    ensures
        r@ == a@ + b@ + c@,
{
    let mut r = a.to_owned();
    r.append(b);
    r.append(c);
    r
}

/// `a`, `b`, `c`, `d` and `e`, one behind the other.
pub fn join5(a: &str, b: &str, c: &str, d: &str, e: &str) -> (r: String)
    ensures
        r@ == a@ + b@ + c@ + d@ + e@,
{
    let mut r = join3(a, b, c);
    r.append(d);
    r.append(e);
    r
}

// ---- laws ----

/// Trimming takes white space off both ends of a text and nothing else: what is left
/// neither begins nor ends with white space, and what is gone is white space.
pub proof fn trimming_takes_white_space_off_the_ends(s: Seq<char>) -> (ends: (int, int))
    ensures
        0 <= ends.0 <= ends.1 <= s.len(),
        trimmed(s) == s.subrange(ends.0, ends.1),
        forall|i: int|
            0 <= i < ends.0 || ends.1 <= i < s.len() ==> white_space(#[trigger] s[i]),
        ends.0 < ends.1 ==> !white_space(s[ends.0]) && !white_space(s[ends.1 - 1]),
{
    let from = lemma_first_text(s, 0);
    let to = lemma_last_text(s, from);
    lemma_trimmed_start(s, from);
    let rest = s.skip(from);
    assert forall|i: int| to - from <= i < rest.len() implies white_space(rest[i]) by {
        assert(rest[i] == s[i + from]);
    }
    lemma_trimmed_end(rest, to - from);
    assert(rest.take(to - from) =~= s.subrange(from, to));
    (from, to)
}

proof fn lemma_first_text(s: Seq<char>, at: int) -> (from: int)
    requires
        0 <= at <= s.len(),
        forall|i: int| 0 <= i < at ==> white_space(#[trigger] s[i]),
    ensures
        at <= from <= s.len(),
        forall|i: int| 0 <= i < from ==> white_space(#[trigger] s[i]),
        from < s.len() ==> !white_space(s[from]),
    decreases s.len() - at,
{
    if at < s.len() && white_space(s[at]) {
        lemma_first_text(s, at + 1)
    } else {
        at
    }
}

proof fn lemma_last_text(s: Seq<char>, from: int) -> (to: int)
    requires
        0 <= from <= s.len(),
    ensures
        from <= to <= s.len(),
        forall|i: int| to <= i < s.len() ==> white_space(#[trigger] s[i]),
        to > from ==> !white_space(s[to - 1]),
    decreases s.len(),
{
    if s.len() > from && white_space(s.last()) {
        let front = s.drop_last();
        let to = lemma_last_text(front, from);
        assert forall|i: int| to <= i < s.len() implies white_space(#[trigger] s[i]) by {
            if i < front.len() {
                assert(front[i] == s[i]);
            }
        }
        to
    } else {
        s.len() as int
    }
}

/// A text with no white space at its ends is left as it is by trimming, and so is one that
/// has been trimmed.
pub proof fn trimmed_text_stays(s: Seq<char>)
    ensures
        s.len() > 0 && !white_space(s[0]) && !white_space(s.last()) ==> trimmed(s) == s,
        trimmed(trimmed(s)) == trimmed(s),
{
    let t = trimmed(s);
    let (from, to) = trimming_takes_white_space_off_the_ends(s);
    if t.len() > 0 {
        assert(t[0] == s[from]);
        assert(t.last() == s[to - 1]);
    }
    assert(trimmed(t) =~= t);
}

/// The pieces of a list, one behind the other with `sep` between them.
pub open spec fn joined(list: Seq<Seq<char>>, sep: char) -> Seq<char>
    decreases list.len(),
{
    if list.len() == 0 {
        Seq::empty()
    } else if list.len() == 1 {
        list[0]
    } else {
        list[0] + seq![sep] + joined(list.skip(1), sep)
    }
}

/// The pieces of a text hold no separator, and joined with separators they are the text.
pub proof fn pieces_make_up_the_text(s: Seq<char>, sep: char)
    ensures
        pieces(s, sep).len() > 0,
        joined(pieces(s, sep), sep) == s,
        forall|i: int|
            0 <= i < pieces(s, sep).len() ==> !(#[trigger] pieces(s, sep)[i]).contains(sep),
    decreases s.len(),
{
    lemma_position_of(s, sep);
    let at = position(s, sep) as int;
    let all = pieces(s, sep);
    if at < s.len() {
        let rest = pieces(s.skip(at + 1), sep);
        pieces_make_up_the_text(s.skip(at + 1), sep);
        assert(all.skip(1) =~= rest);
        assert(all[0] == s.take(at));
        assert(s.take(at) + seq![sep] + s.skip(at + 1) =~= s);
        assert forall|i: int| 0 <= i < all.len() implies !(#[trigger] all[i]).contains(sep) by {
            if i > 0 {
                assert(all[i] == rest[i - 1]);
            }
        }
    }
}

proof fn lemma_position_of(s: Seq<char>, c: char)
    ensures
        position(s, c) <= s.len(),
        position(s, c) < s.len() ==> s[position(s, c) as int] == c,
        forall|i: int| 0 <= i < position(s, c) ==> #[trigger] s[i] != c,
    decreases s.len(),
{
    if s.len() > 0 && s[0] != c {
        let rest = s.skip(1);
        lemma_position_of(rest, c);
        assert forall|i: int| 0 <= i < position(s, c) implies #[trigger] s[i] != c by {
            if i > 0 {
                assert(rest[i - 1] == s[i]);
            }
        }
    }
}

/// A text is cut at its first separator: the parts and the separator make up the text, and
/// the first part holds no separator. Only a text without one is not cut.
pub proof fn cut_is_at_the_first_separator(s: Seq<char>, sep: char)
    ensures
        cut(s, sep) is None <==> !s.contains(sep),
        cut(s, sep) matches Some((before, behind)) ==> s == before + seq![sep] + behind
            && !before.contains(sep),
{
    lemma_position_of(s, sep);
    let at = position(s, sep) as int;
    if at < s.len() {
        assert(s =~= s.take(at) + seq![sep] + s.skip(at + 1));
        assert(s[at] == sep);
    }
}

/// A text made of a part without a separator, a separator and anything is cut between them.
pub proof fn cut_gives_back_the_parts(before: Seq<char>, sep: char, behind: Seq<char>)
    requires
        !before.contains(sep),
    ensures
        cut(before + seq![sep] + behind, sep) == Some((before, behind)),
{
    let s = before + seq![sep] + behind;
    let at = before.len() as int;
    assert forall|i: int| 0 <= i < at implies s[i] != sep by {
        assert(s[i] == before[i]);
    }
    lemma_position(s, sep, at);
    assert(s.take(at) =~= before);
    assert(s.skip(at + 1) =~= behind);
}

/// The number that a digit stands for.
pub open spec fn digit_value(c: char) -> int {
    c as int - '0' as int
}

/// The number that a row of digits stands for.
pub open spec fn number(s: Seq<char>) -> int
    decreases s.len(),
{
    if s.len() == 0 {
        0
    } else {
        number(s.drop_last()) * 10 + digit_value(s.last())
    }
}

/// The decimal text of a number stands for that number; it holds digits only, at least one,
/// and a leading zero only where the number is zero.
pub proof fn decimal_text_stands_for_its_number(n: nat)
    ensures
        number(decimal(n)) == n,
        decimal(n).len() > 0,
        forall|i: int| 0 <= i < decimal(n).len() ==> '0' <= #[trigger] decimal(n)[i] <= '9',
        n > 0 ==> decimal(n)[0] != '0',
    decreases n,
{
    if n < 10 {
        let one = seq![digit(n)];
        assert(one.drop_last() =~= Seq::empty());
        assert(number(one.drop_last()) == 0);
        assert(number(decimal(n)) == digit_value(digit(n)));
    } else {
        let high = decimal(n / 10);
        decimal_text_stands_for_its_number(n / 10);
        assert(decimal(n).drop_last() =~= high);
        assert(decimal(n)[0] == high[0]);
        assert forall|i: int| 0 <= i < decimal(n).len() implies '0' <= #[trigger] decimal(n)[i]
            <= '9' by {
            if i < high.len() {
                assert(decimal(n)[i] == high[i]);
            }
        }
    }
}

/// White space are the tab and the line ends, the blank, and the blanks and separators of
/// Unicode.
pub proof fn white_space_is_blanks_and_line_ends(c: char)
    ensures
        white_space(c) <==> [
            0x9u32, 0xA, 0xB, 0xC, 0xD, 0x20, 0x85, 0xA0, 0x1680, 0x2000, 0x2001, 0x2002, 0x2003,
            0x2004, 0x2005, 0x2006, 0x2007, 0x2008, 0x2009, 0x200A, 0x2028, 0x2029, 0x202F, 0x205F,
            0x3000,
        ]@.contains(c as u32),
{
    let all = [
        0x9u32, 0xA, 0xB, 0xC, 0xD, 0x20, 0x85, 0xA0, 0x1680, 0x2000, 0x2001, 0x2002, 0x2003,
        0x2004, 0x2005, 0x2006, 0x2007, 0x2008, 0x2009, 0x200A, 0x2028, 0x2029, 0x202F, 0x205F,
        0x3000,
    ]@;
    if white_space(c) {
        let u = c as u32;
        let at: int = if u <= 0xD {
            u - 0x9
        } else if u == 0x20 {
            5
        } else if u == 0x85 {
            6
        } else if u == 0xA0 {
            7
        } else if u == 0x1680 {
            8
        } else if u <= 0x200A {
            9 + (u - 0x2000)
        } else if u == 0x2028 {
            20
        } else if u == 0x2029 {
            21
        } else if u == 0x202F {
            22
        } else if u == 0x205F {
            23
        } else {
            24
        };
        assert(all[at] == u);
    }
}

} // verus!
