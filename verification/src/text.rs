//! Operations on strings, stated over their sequences of characters.

use vstd::prelude::*;
use vstd::string::*;

verus! {

/// The character sequences of a sequence of strings.
pub open spec fn views(s: Seq<String>) -> Seq<Seq<char>> {
    s.map_values(|t: String| t@)
}

/// The character sequence of an optional string.
pub open spec fn opt_view(s: Option<String>) -> Option<Seq<char>> {
    match s {
        Some(t) => Some(t@),
        None => None,
    }
}

/// Whether two string slices hold the same characters.
pub fn same(a: &str, b: &str) -> (r: bool)
    ensures
        r == (a@ == b@),
{
    a.to_owned() == b.to_owned()
}

/// A copy of a list of strings.
pub fn copy_all(v: &Vec<String>) -> (r: Vec<String>)
    ensures
        r@ == v@,
{
    let mut out: Vec<String> = Vec::new();
    let mut i: usize = 0;
    while i < v.len()
        invariant
            i <= v.len(),
            out@ == v@.subrange(0, i as int),
        decreases v.len() - i,
    {
        out.push(v[i].clone());
        assert(v@.subrange(0, i + 1) =~= v@.subrange(0, i as int).push(v@[i as int]));
        i += 1;
    }
    assert(v@.subrange(0, v.len() as int) =~= v@);
    out
}

/// A copy of an optional string.
pub fn copy_opt(s: &Option<String>) -> (r: Option<String>)
    ensures
        r == *s,
{
    match s {
        Some(t) => Some(t.clone()),
        None => None,
    }
}

/// Whether a list of strings holds `s`.
pub fn holds(v: &Vec<String>, s: &str) -> (r: bool)
    ensures
        r == views(v@).contains(s@),
{
    let mut i: usize = 0;
    while i < v.len()
        invariant
            i <= v.len(),
            forall|j: int| 0 <= j < i ==> (#[trigger] v@[j])@ != s@,
        decreases v.len() - i,
    {
        if same(&v[i], s) {
            assert(views(v@)[i as int] == s@);
            return true;
        }
        i += 1;
    }
    assert forall|j: int| 0 <= j < views(v@).len() implies views(v@)[j] != s@ by {
        assert(views(v@)[j] == v@[j]@);
    }
    false
}

/// The entries of a list other than `b`.
pub open spec fn without(s: Seq<Seq<char>>, b: Seq<char>) -> Seq<Seq<char>> {
    s.filter(|x: Seq<char>| x != b)
}

/// The entries of a list other than `b`.
pub fn all_but(v: &Vec<String>, b: &str) -> (r: Vec<String>)
    ensures
        views(r@) == without(views(v@), b@),
{
    let ghost other = |x: Seq<char>| x != b@;
    let ghost all = views(v@);
    let mut kept: Vec<String> = Vec::new();
    let mut i: usize = 0;
    proof {
        reveal(Seq::filter);
        assert(all.take(0) =~= Seq::<Seq<char>>::empty());
        assert(views(kept@) =~= all.take(0).filter(other));
    }
    while i < v.len()
        invariant
            i <= v.len(),
            all == views(v@),
            other == (|x: Seq<char>| x != b@),
            views(kept@) == all.take(i as int).filter(other),
        decreases v.len() - i,
    {
        let ghost held = views(kept@);
        let ghost x = all[i as int];
        assert(x == v@[i as int]@);
        proof {
            assert(all.take(i + 1) =~= all.take(i as int).push(x));
            all.take(i as int).lemma_filter_push(x, other);
        }
        if !same(&v[i], b) {
            kept.push(v[i].clone());
            assert(views(kept@) =~= held.push(x));
        }
        i += 1;
    }
    assert(all.take(v.len() as int) =~= all);
    assert(other == (|x: Seq<char>| x != b@));
    kept
}

/// Lexicographic order by character.
pub open spec fn lex_less(a: Seq<char>, b: Seq<char>) -> bool
    decreases a.len(),
{
    if b.len() == 0 {
        false
    } else if a.len() == 0 {
        true
    } else if a[0] == b[0] {
        lex_less(a.drop_first(), b.drop_first())
    } else {
        a[0] < b[0]
    }
}

/// `lex_less` is transitive.
pub proof fn lex_less_transitive(a: Seq<char>, b: Seq<char>, c: Seq<char>)
    requires
        lex_less(a, b),
        lex_less(b, c),
    ensures
        lex_less(a, c),
    decreases a.len(),
{
    if a.len() > 0 && b.len() > 0 && c.len() > 0 && a[0] == b[0] && b[0] == c[0] {
        lex_less_transitive(a.drop_first(), b.drop_first(), c.drop_first());
    }
}

/// Exactly one of `a < b`, `b < a` and `a == b` holds.
pub proof fn lex_less_total(a: Seq<char>, b: Seq<char>)
    ensures
        lex_less(a, b) ==> !lex_less(b, a) && a != b,
        lex_less(b, a) ==> !lex_less(a, b) && a != b,
        lex_less(a, b) || lex_less(b, a) || a == b,
    decreases a.len(),
{
    if a.len() > 0 && b.len() > 0 {
        if a[0] == b[0] {
            lex_less_total(a.drop_first(), b.drop_first());
            if a.drop_first() == b.drop_first() {
                assert(a =~= seq![a[0]] + a.drop_first());
                assert(b =~= seq![b[0]] + b.drop_first());
            }
        }
    } else if a.len() == 0 && b.len() == 0 {
        assert(a =~= b);
    }
}

/// Whether `a` comes before `b` in lexicographic order by character.
pub fn less(a: &str, b: &str) -> (r: bool)
    ensures
        r == lex_less(a@, b@),
{
    let n: usize = a.unicode_len();
    let m: usize = b.unicode_len();
    let mut i: usize = 0;
    assert(a@.skip(0) =~= a@);
    assert(b@.skip(0) =~= b@);
    while i < n && i < m
        invariant
            n == a@.len(),
            m == b@.len(),
            i <= n,
            i <= m,
            lex_less(a@, b@) == lex_less(a@.skip(i as int), b@.skip(i as int)),
        decreases n - i,
    {
        let x: char = a.get_char(i);
        let y: char = b.get_char(i);
        if x != y {
            return x < y;
        }
        assert(a@.skip(i as int).drop_first() =~= a@.skip(i + 1));
        assert(b@.skip(i as int).drop_first() =~= b@.skip(i + 1));
        i += 1;
    }
    n < m
}

/// Strictly increasing in lexicographic order, hence without repetition.
pub open spec fn sorted(s: Seq<Seq<char>>) -> bool {
    forall|i: int, j: int| 0 <= i < j < s.len() ==> lex_less(#[trigger] s[i], #[trigger] s[j])
}

/// Decimal digit `d` as a character.
pub open spec fn digit(d: nat) -> char {
    if d == 0 {
        '0'
    } else if d == 1 {
        '1'
    } else if d == 2 {
        '2'
    } else if d == 3 {
        '3'
    } else if d == 4 {
        '4'
    } else if d == 5 {
        '5'
    } else if d == 6 {
        '6'
    } else if d == 7 {
        '7'
    } else if d == 8 {
        '8'
    } else {
        '9'
    }
}

/// A natural number in decimal, without leading zeros.
pub open spec fn decimal(n: nat) -> Seq<char>
    decreases n,
{
    if n < 10 {
        seq![digit(n)]
    } else {
        decimal(n / 10).push(digit(n % 10))
    }
}

fn digit_text(d: u64) -> (r: &'static str)
    requires
        d < 10,
    ensures
        r@ == seq![digit(d as nat)],
{
    proof {
        reveal_strlit("0");
        reveal_strlit("1");
        reveal_strlit("2");
        reveal_strlit("3");
        reveal_strlit("4");
        reveal_strlit("5");
        reveal_strlit("6");
        reveal_strlit("7");
        reveal_strlit("8");
        reveal_strlit("9");
    }
    let r: &'static str = if d == 0 {
        "0"
    } else if d == 1 {
        "1"
    } else if d == 2 {
        "2"
    } else if d == 3 {
        "3"
    } else if d == 4 {
        "4"
    } else if d == 5 {
        "5"
    } else if d == 6 {
        "6"
    } else if d == 7 {
        "7"
    } else if d == 8 {
        "8"
    } else {
        "9"
    };
    assert(r@ =~= seq![digit(d as nat)]);
    r
}

/// A number in decimal.
pub fn number(n: u64) -> (r: String)
    ensures
        r@ == decimal(n as nat),
    decreases n,
{
    if n < 10 {
        String::from_str(digit_text(n))
    } else {
        let head: String = number(n / 10);
        let r: String = head.concat(digit_text(n % 10));
        assert(r@ =~= decimal((n / 10) as nat).push(digit((n % 10) as nat)));
        r
    }
}

/// A length or count in decimal.
pub fn count(n: usize) -> (r: String)
    ensures
        r@ == decimal(n as nat),
{
    number(n as u64)
}

/// The strings of `parts` in order, with `sep` between neighbours.
pub open spec fn joined(parts: Seq<Seq<char>>, sep: Seq<char>) -> Seq<char>
    decreases parts.len(),
{
    if parts.len() == 0 {
        Seq::empty()
    } else if parts.len() == 1 {
        parts[0]
    } else {
        joined(parts.drop_last(), sep) + sep + parts.last()
    }
}

/// The strings of `parts` in order, with `sep` between neighbours.
pub fn join(parts: &Vec<String>, sep: &str) -> (r: String)
    ensures
        r@ == joined(views(parts@), sep@),
{
    let mut out: String = String::new();
    let mut i: usize = 0;
    while i < parts.len()
        invariant
            i <= parts.len(),
            out@ == joined(views(parts@).take(i as int), sep@),
        decreases parts.len() - i,
    {
        proof {
            let all = views(parts@);
            assert(all.take(i + 1).drop_last() =~= all.take(i as int));
            assert(all.take(i + 1).last() == parts@[i as int]@);
        }
        if i > 0 {
            out.append(sep);
            out.append(&parts[i]);
        } else {
            out = parts[i].clone();
        }
        i += 1;
    }
    assert(views(parts@).take(parts.len() as int) =~= views(parts@));
    out
}

/// Whether `s` begins with `p`.
pub open spec fn begins(s: Seq<char>, p: Seq<char>) -> bool {
    p.len() <= s.len() && s.take(p.len() as int) == p
}

/// Whether `s` begins with `p`.
pub fn starts_with(s: &str, p: &str) -> (r: bool)
    ensures
        r == begins(s@, p@),
{
    let n: usize = s.unicode_len();
    let m: usize = p.unicode_len();
    if m > n {
        return false;
    }
    assert(s@.take(p@.len() as int) == s@.subrange(0, m as int));
    same(s.substring_char(0, m), p)
}

/// Whether `p` stands somewhere in `s`.
pub open spec fn occurs(s: Seq<char>, p: Seq<char>) -> bool {
    exists|i: int| 0 <= i <= s.len() && #[trigger] begins(s.skip(i), p)
}

/// Whether `p` stands somewhere in `s`.
pub fn contains(s: &str, p: &str) -> (r: bool)
    ensures
        r == occurs(s@, p@),
{
    let n: usize = s.unicode_len();
    let mut i: usize = 0;
    loop
        invariant
            n == s@.len(),
            i <= n,
            forall|j: int| 0 <= j < i ==> !#[trigger] begins(s@.skip(j), p@),
        decreases n - i,
    {
        assert(s@.skip(i as int) == s@.subrange(i as int, n as int));
        if starts_with(s.substring_char(i, n), p) {
            return true;
        }
        if i == n {
            return false;
        }
        i += 1;
    }
}

/// The characters that Unicode gives the property White_Space.
pub open spec fn is_space(c: char) -> bool {
    let n = c as u32;
    ||| 0x9 <= n <= 0xD
    ||| n == 0x20
    ||| n == 0x85
    ||| n == 0xA0
    ||| n == 0x1680
    ||| 0x2000 <= n <= 0x200A
    ||| n == 0x2028
    ||| n == 0x2029
    ||| n == 0x202F
    ||| n == 0x205F
    ||| n == 0x3000
}

fn space(c: char) -> (r: bool)
    ensures
        r == is_space(c),
{
    let n: u32 = c as u32;
    (0x9 <= n && n <= 0xD) || n == 0x20 || n == 0x85 || n == 0xA0 || n == 0x1680 || (0x2000 <= n
        && n <= 0x200A) || n == 0x2028 || n == 0x2029 || n == 0x202F || n == 0x205F || n == 0x3000
}

/// `s` without the white space at its start.
pub open spec fn trimmed_start(s: Seq<char>) -> Seq<char>
    decreases s.len(),
{
    if s.len() > 0 && is_space(s[0]) {
        trimmed_start(s.drop_first())
    } else {
        s
    }
}

/// `s` without the white space at its end.
pub open spec fn trimmed_end(s: Seq<char>) -> Seq<char>
    decreases s.len(),
{
    if s.len() > 0 && is_space(s.last()) {
        trimmed_end(s.drop_last())
    } else {
        s
    }
}

/// `s` without the white space at its two ends.
pub open spec fn trimmed(s: Seq<char>) -> Seq<char> {
    trimmed_end(trimmed_start(s))
}

/// `s` without the white space at its two ends.
pub fn trim(s: &str) -> (r: &str)
    ensures
        r@ == trimmed(s@),
{
    let n: usize = s.unicode_len();
    let mut i: usize = 0;
    assert(s@.skip(0) =~= s@);
    while i < n && space(s.get_char(i))
        invariant
            n == s@.len(),
            i <= n,
            trimmed_start(s@) == trimmed_start(s@.skip(i as int)),
        decreases n - i,
    {
        assert(s@.skip(i as int).drop_first() =~= s@.skip(i + 1));
        i += 1;
    }
    assert(trimmed_start(s@) == s@.skip(i as int));
    let mut j: usize = n;
    assert(s@.skip(i as int) =~= s@.subrange(i as int, n as int));
    while j > i && space(s.get_char(j - 1))
        invariant
            n == s@.len(),
            i <= j <= n,
            trimmed(s@) == trimmed_end(s@.subrange(i as int, j as int)),
        decreases j,
    {
        assert(s@.subrange(i as int, j as int).drop_last() =~= s@.subrange(i as int, j - 1));
        j -= 1;
    }
    s.substring_char(i, j)
}

/// Whether the first line feed of `s` is at `n`, which is the length of `s` if there is none.
pub open spec fn line_end(s: Seq<char>, n: int) -> bool {
    &&& 0 <= n <= s.len()
    &&& n < s.len() ==> s[n] == '\n'
    &&& forall|i: int| 0 <= i < n ==> s[i] != '\n'
}

/// Where the first line feed of `s` is; the length of `s` if there is none.
pub open spec fn first_end(s: Seq<char>) -> int
    decreases s.len(),
{
    if s.len() == 0 || s[0] == '\n' {
        0
    } else {
        1 + first_end(s.drop_first())
    }
}

/// The first line of `s`, given where it ends: without the line feed, and without a carriage
/// return right before that.
pub open spec fn line_at(s: Seq<char>, n: int) -> Seq<char> {
    if n < s.len() && n > 0 && s[n - 1] == '\r' {
        s.take(n - 1)
    } else {
        s.take(n)
    }
}

/// The lines of `s`.
pub open spec fn lines_of(s: Seq<char>) -> Seq<Seq<char>>
    decreases s.len(),
{
    if s.len() == 0 {
        Seq::empty()
    } else {
        let n = first_end(s);
        if 0 <= n < s.len() {
            seq![line_at(s, n)] + lines_of(s.skip(n + 1))
        } else {
            seq![s]
        }
    }
}

proof fn lemma_first_end(s: Seq<char>, n: int)
    requires
        line_end(s, n),
    ensures
        first_end(s) == n,
    decreases s.len(),
{
    if s.len() > 0 && s[0] != '\n' {
        let t = s.drop_first();
        assert forall|i: int| 0 <= i < n - 1 implies t[i] != '\n' by {
            assert(t[i] == s[i + 1]);
        }
        lemma_first_end(t, n - 1);
    }
}

/// The lines of `s`, split at line feeds; a carriage return before a line feed goes with it.
pub fn lines(s: &str) -> (r: Vec<String>)
    ensures
        views(r@) == lines_of(s@),
{
    let n: usize = s.unicode_len();
    let mut out: Vec<String> = Vec::new();
    let mut start: usize = 0;
    assert(views(out@) =~= Seq::<Seq<char>>::empty());
    assert(s@.skip(0) =~= s@);
    while start < n
        invariant
            n == s@.len(),
            start <= n,
            lines_of(s@) == views(out@) + lines_of(s@.skip(start as int)),
        decreases n - start,
    {
        let ghost rest = s@.skip(start as int);
        let ghost held = views(out@);
        let mut end: usize = start;
        while end < n && s.get_char(end) != '\n'
            invariant
                n == s@.len(),
                start <= end <= n,
                rest == s@.skip(start as int),
                forall|i: int| 0 <= i < end - start ==> rest[i] != '\n',
            decreases n - end,
        {
            assert(rest[end - start] == s@[end as int]);
            end += 1;
        }
        proof {
            assert(end < n ==> rest[end - start] == s@[end as int]);
            assert(line_end(rest, end - start));
            lemma_first_end(rest, end - start);
        }
        if end < n {
            let cut: usize = if end > start && s.get_char(end - 1) == '\r' {
                end - 1
            } else {
                end
            };
            proof {
                if end > start {
                    assert(rest[end - start - 1] == s@[end - 1]);
                }
                assert(s@.subrange(start as int, cut as int) =~= line_at(rest, end - start));
                assert(rest.skip(end - start + 1) =~= s@.skip(end + 1));
            }
            out.push(s.substring_char(start, cut).to_owned());
            assert(views(out@) =~= held.push(line_at(rest, end - start)));
            assert(held + (seq![line_at(rest, end - start)] + lines_of(s@.skip(end + 1)))
                =~= held.push(line_at(rest, end - start)) + lines_of(s@.skip(end + 1)));
            start = end + 1;
        } else {
            assert(s@.subrange(start as int, n as int) =~= rest);
            out.push(s.substring_char(start, n).to_owned());
            assert(views(out@) =~= held.push(rest));
            assert(s@.skip(n as int) =~= Seq::<char>::empty());
            assert(held + seq![rest] =~= held.push(rest) + lines_of(s@.skip(n as int)));
            start = n;
        }
    }
    assert(s@.skip(n as int) =~= Seq::<char>::empty());
    assert(views(out@) + Seq::<Seq<char>>::empty() =~= views(out@));
    out
}

/// At most the first `n` characters of `s`.
pub open spec fn prefix(s: Seq<char>, n: nat) -> Seq<char> {
    if s.len() <= n {
        s
    } else {
        s.take(n as int)
    }
}

/// The abbreviated form of a commit: its first seven characters.
pub fn short(s: &str) -> (r: String)
    ensures
        r@ == prefix(s@, 7),
{
    let n: usize = s.unicode_len();
    if n <= 7 {
        s.to_owned()
    } else {
        s.substring_char(0, 7).to_owned()
    }
}

/// Where `c` first stands in `s`; the length of `s` if nowhere.
pub open spec fn first_at(s: Seq<char>, c: char) -> int
    decreases s.len(),
{
    if s.len() == 0 || s[0] == c {
        0
    } else {
        1 + first_at(s.drop_first(), c)
    }
}

pub(crate) proof fn lemma_first_at(s: Seq<char>, c: char, n: int)
    requires
        0 <= n <= s.len(),
        n < s.len() ==> s[n] == c,
        forall|i: int| 0 <= i < n ==> s[i] != c,
    ensures
        first_at(s, c) == n,
    decreases s.len(),
{
    if s.len() > 0 && s[0] != c {
        let t = s.drop_first();
        assert forall|i: int| 0 <= i < n - 1 implies t[i] != c by {
            assert(t[i] == s[i + 1]);
        }
        lemma_first_at(t, c, n - 1);
    }
}

/// The pieces of `s` between the places where `c` stands.
pub open spec fn pieces(s: Seq<char>, c: char) -> Seq<Seq<char>>
    decreases s.len(),
{
    let n = first_at(s, c);
    if 0 <= n < s.len() {
        seq![s.take(n)] + pieces(s.skip(n + 1), c)
    } else {
        seq![s]
    }
}

/// The pieces of `s` between the places where `c` stands.
pub fn split(s: &str, c: char) -> (r: Vec<String>)
    ensures
        views(r@) == pieces(s@, c),
{
    let n: usize = s.unicode_len();
    let mut out: Vec<String> = Vec::new();
    let mut start: usize = 0;
    assert(views(out@) =~= Seq::<Seq<char>>::empty());
    assert(s@.skip(0) =~= s@);
    assert(pieces(s@, c) =~= views(out@) + pieces(s@, c));
    loop
        invariant
            n == s@.len(),
            start <= n,
            pieces(s@, c) == views(out@) + pieces(s@.skip(start as int), c),
        decreases n - start,
    {
        let ghost rest = s@.skip(start as int);
        let ghost held = views(out@);
        let mut end: usize = start;
        while end < n && s.get_char(end) != c
            invariant
                n == s@.len(),
                start <= end <= n,
                rest == s@.skip(start as int),
                forall|i: int| 0 <= i < end - start ==> rest[i] != c,
            decreases n - end,
        {
            assert(rest[end - start] == s@[end as int]);
            end += 1;
        }
        proof {
            assert(end < n ==> rest[end - start] == s@[end as int]);
            lemma_first_at(rest, c, end - start);
            assert(s@.subrange(start as int, end as int) =~= rest.take(end - start));
        }
        out.push(s.substring_char(start, end).to_owned());
        assert(views(out@) =~= held.push(rest.take(end - start)));
        if end == n {
            assert(rest.take(end - start) =~= rest);
            assert(views(out@) =~= held + seq![rest]);
            return out;
        }
        assert(rest.skip(end - start + 1) =~= s@.skip(end + 1));
        assert(held + (seq![rest.take(end - start)] + pieces(s@.skip(end + 1), c)) =~= held.push(
            rest.take(end - start),
        ) + pieces(s@.skip(end + 1), c));
        start = end + 1;
    }
}

/// The names of a path, without empty ones and without `.`, unless a relative path begins with
/// that.
pub open spec fn path_names(s: Seq<char>) -> Seq<Seq<char>> {
    kept_names(pieces(s, '/'), absolute(s))
}

/// Whether a path begins at the root.
pub open spec fn absolute(s: Seq<char>) -> bool {
    s.len() > 0 && s[0] == '/'
}

/// The pieces of a path that name something.
pub open spec fn kept_names(p: Seq<Seq<char>>, from_root: bool) -> Seq<Seq<char>>
    decreases p.len(),
{
    if p.len() == 0 {
        Seq::empty()
    } else {
        let low = kept_names(p.drop_last(), from_root);
        let x = p.last();
        if x.len() == 0 || (x == "."@ && !(p.len() == 1 && !from_root)) {
            low
        } else {
            low.push(x)
        }
    }
}

/// The names of a path.
pub fn names_in_path(s: &str) -> (r: Vec<String>)
    ensures
        views(r@) == path_names(s@),
{
    let from_root: bool = !s.is_empty() && s.get_char(0) == '/';
    let all: Vec<String> = split(s, '/');
    let ghost p = views(all@);
    let mut out: Vec<String> = Vec::new();
    let mut i: usize = 0;
    assert(p.take(0) =~= Seq::<Seq<char>>::empty());
    assert(views(out@) =~= Seq::<Seq<char>>::empty());
    while i < all.len()
        invariant
            i <= all.len(),
            p == views(all@),
            views(out@) == kept_names(p.take(i as int), from_root),
        decreases all.len() - i,
    {
        let ghost held = views(out@);
        assert(p.take(i + 1).drop_last() =~= p.take(i as int));
        assert(p.take(i + 1).last() == all@[i as int]@);
        if !(all[i].as_str().is_empty() || (same(&all[i], ".") && !(i == 0 && !from_root))) {
            out.push(all[i].clone());
            assert(views(out@) =~= held.push(all@[i as int]@));
        }
        i += 1;
    }
    assert(p.take(all.len() as int) =~= p);
    out
}

/// Whether the path `s` is the path `dir` or lies inside it.
pub open spec fn path_within(s: Seq<char>, dir: Seq<char>) -> bool {
    &&& absolute(s) == absolute(dir)
    &&& path_names(dir).len() <= path_names(s).len()
    &&& path_names(s).take(path_names(dir).len() as int) == path_names(dir)
}

/// Whether the path `s` is the path `dir` or lies inside it.
pub fn within_path(s: &str, dir: &str) -> (r: bool)
    ensures
        r == path_within(s@, dir@),
{
    let s_root: bool = !s.is_empty() && s.get_char(0) == '/';
    let dir_root: bool = !dir.is_empty() && dir.get_char(0) == '/';
    if s_root != dir_root {
        return false;
    }
    let a: Vec<String> = names_in_path(s);
    let b: Vec<String> = names_in_path(dir);
    let ghost x = views(a@);
    let ghost y = views(b@);
    if b.len() > a.len() {
        return false;
    }
    let mut i: usize = 0;
    while i < b.len()
        invariant
            i <= b.len(),
            b.len() <= a.len(),
            x == views(a@),
            y == views(b@),
            x == path_names(s@),
            y == path_names(dir@),
            forall|j: int| 0 <= j < i ==> x[j] == y[j],
        decreases b.len() - i,
    {
        if !same(&a[i], &b[i]) {
            assert(x.take(y.len() as int)[i as int] != y[i as int]);
            return false;
        }
        i += 1;
    }
    assert(x.take(y.len() as int) =~= y);
    true
}

/// `s` without the slashes at its end.
pub open spec fn unslashed(s: Seq<char>) -> Seq<char>
    decreases s.len(),
{
    if s.len() > 0 && s.last() == '/' {
        unslashed(s.drop_last())
    } else {
        s
    }
}

/// `s` without the slashes at its end.
pub fn trim_slashes(s: &str) -> (r: &str)
    ensures
        r@ == unslashed(s@),
{
    let mut n: usize = s.unicode_len();
    assert(s@.take(n as int) =~= s@);
    while n > 0 && s.get_char(n - 1) == '/'
        invariant
            n <= s@.len(),
            unslashed(s@) == unslashed(s@.take(n as int)),
        decreases n,
    {
        assert(s@.take(n as int).drop_last() =~= s@.take(n - 1));
        n -= 1;
    }
    assert(s@.subrange(0, n as int) =~= s@.take(n as int));
    s.substring_char(0, n)
}

/// The value of a decimal digit, if the character is one.
pub open spec fn digit_value(c: char) -> Option<nat> {
    if '0' <= c && c <= '9' {
        Some((c as u32 - '0' as u32) as nat)
    } else {
        None
    }
}

/// The number that a sequence of decimal digits stands for; nothing if one is no digit.
pub open spec fn digits_value(s: Seq<char>) -> Option<nat>
    decreases s.len(),
{
    if s.len() == 0 {
        Some(0)
    } else {
        match (digits_value(s.drop_last()), digit_value(s.last())) {
            (Some(v), Some(d)) => Some(v * 10 + d),
            _ => None,
        }
    }
}

/// The number that a text stands for: decimal digits, with a plus sign before them or not, within
/// the range of a `u64`.
pub open spec fn number_of(s: Seq<char>) -> Option<u64> {
    let d = if s.len() > 0 && s[0] == '+' {
        s.drop_first()
    } else {
        s
    };
    if d.len() == 0 {
        None
    } else {
        fitting(digits_value(d))
    }
}

/// A number, if there is one in the range of a `u64`.
pub open spec fn fitting(n: Option<nat>) -> Option<u64> {
    match n {
        Some(v) => if v <= u64::MAX {
            Some(v as u64)
        } else {
            None
        },
        None => None,
    }
}

proof fn lemma_digits_grow(s: Seq<char>, n: int)
    requires
        0 <= n <= s.len(),
        digits_value(s) is Some,
    ensures
        digits_value(s.take(n)) is Some,
        digits_value(s.take(n))->0 <= digits_value(s)->0,
    decreases s.len(),
{
    if n < s.len() {
        lemma_digits_grow(s.drop_last(), n);
        assert(s.drop_last().take(n) =~= s.take(n));
    } else {
        assert(s.take(n) =~= s);
    }
}

/// The number that a text stands for.
pub fn parse_number(s: &str) -> (r: Option<u64>)
    ensures
        r == number_of(s@),
{
    let n: usize = s.unicode_len();
    let start: usize = if n > 0 && s.get_char(0) == '+' {
        1
    } else {
        0
    };
    let ghost d = s@.skip(start as int);
    proof {
        if start == 1 {
            assert(d =~= s@.drop_first());
        } else {
            assert(d =~= s@);
        }
    }
    if start == n {
        return None;
    }
    let mut value: u64 = 0;
    let mut i: usize = start;
    assert(d.take(0) =~= Seq::<char>::empty());
    while i < n
        invariant
            n == s@.len(),
            start <= i <= n,
            start <= 1,
            d == s@.skip(start as int),
            number_of(s@) == fitting(digits_value(d)),
            digits_value(d.take(i - start)) == Some(value as nat),
        decreases n - i,
    {
        let c: char = s.get_char(i);
        let ghost k = i - start;
        proof {
            assert(d[k] == c);
            assert(d.take(k + 1).drop_last() =~= d.take(k));
            assert(d.take(k + 1).last() == c);
            if digits_value(d) is Some {
                lemma_digits_grow(d, k + 1);
            }
        }
        if !('0' <= c && c <= '9') {
            return None;
        }
        let digit: u64 = (c as u32 - '0' as u32) as u64;
        if value > (u64::MAX - digit) / 10 {
            assert(value as nat * 10 + digit as nat > u64::MAX);
            return None;
        }
        assert(value * 10 + digit <= u64::MAX);
        value = value * 10 + digit;
        i += 1;
    }
    assert(d.take(n - start) =~= d);
    Some(value)
}

/// `n` spaces.
pub open spec fn spaces(n: nat) -> Seq<char> {
    Seq::new(n, |i: int| ' ')
}

/// `s` filled up with spaces to `n` characters.
pub open spec fn padded(s: Seq<char>, n: nat) -> Seq<char> {
    if s.len() >= n {
        s
    } else {
        s + spaces((n - s.len()) as nat)
    }
}

/// `s` filled up with spaces to `n` characters.
pub fn pad(s: &str, n: usize) -> (r: String)
    ensures
        r@ == padded(s@, n as nat),
{
    let mut out: String = s.to_owned();
    let mut k: usize = s.unicode_len();
    let ghost start = k;
    assert(s@ + spaces(0) =~= s@);
    while k < n
        invariant
            start == s@.len(),
            start <= k,
            k <= n || k == start,
            out@ == s@ + spaces((k - start) as nat),
        decreases n - k,
    {
        proof {
            reveal_strlit(" ");
            assert(spaces((k - start) as nat) + " "@ =~= spaces((k + 1 - start) as nat));
            assert(s@ + spaces((k - start) as nat) + " "@ =~= s@ + (spaces((k - start) as nat)
                + " "@));
        }
        out.append(" ");
        k += 1;
    }
    out
}

/// The last name of a path; the path itself where that names nothing.
pub open spec fn base_name(path: Seq<char>) -> Seq<char> {
    let names = path_names(path);
    if names.len() == 0 || names.last() == ".."@ || names.last() == "."@ {
        path
    } else {
        names.last()
    }
}

/// The last name of a path.
pub fn file_label(path: &str) -> (r: String)
    ensures
        r@ == base_name(path@),
{
    let names: Vec<String> = names_in_path(path);
    let ghost all = views(names@);
    assert(all.len() == names.len());
    if names.len() == 0 {
        return path.to_owned();
    }
    let last: &String = &names[names.len() - 1];
    assert(all.last() == last@);
    if same(last, "..") || same(last, ".") {
        path.to_owned()
    } else {
        last.clone()
    }
}

/// A path inside a directory. An absolute path stands for itself.
pub open spec fn path_joined(dir: Seq<char>, rel: Seq<char>) -> Seq<char> {
    if absolute(rel) || dir.len() == 0 {
        rel
    } else if dir.last() == '/' {
        dir + rel
    } else {
        dir + "/"@ + rel
    }
}

/// A path inside a directory.
pub fn join_path(dir: &str, rel: &str) -> (r: String)
    ensures
        r@ == path_joined(dir@, rel@),
{
    let n: usize = dir.unicode_len();
    if n == 0 || (!rel.is_empty() && rel.get_char(0) == '/') {
        rel.to_owned()
    } else if dir.get_char(n - 1) == '/' {
        dir.to_owned().concat(rel)
    } else {
        dir.to_owned().concat("/").concat(rel)
    }
}

/// `s` with every `p` in it, from the left and without overlap, replaced. An empty `p` stands
/// before each character and at the end.
pub open spec fn replaced(s: Seq<char>, p: Seq<char>, by: Seq<char>) -> Seq<char>
    decreases s.len(),
{
    if s.len() == 0 {
        if p.len() == 0 {
            by
        } else {
            s
        }
    } else if p.len() > 0 && begins(s, p) {
        by + replaced(s.skip(p.len() as int), p, by)
    } else if p.len() == 0 {
        by + s.take(1) + replaced(s.skip(1), p, by)
    } else {
        s.take(1) + replaced(s.skip(1), p, by)
    }
}

/// `s` with every `p` in it replaced.
pub fn replace(s: &str, p: &str, by: &str) -> (r: String)
    ensures
        r@ == replaced(s@, p@, by@),
{
    let n: usize = s.unicode_len();
    let m: usize = p.unicode_len();
    let mut out: String = String::new();
    let mut i: usize = 0;
    assert(s@.skip(0) =~= s@);
    assert(out@ + replaced(s@, p@, by@) =~= replaced(s@, p@, by@));
    while i < n
        invariant
            n == s@.len(),
            m == p@.len(),
            i <= n,
            out@ + replaced(s@.skip(i as int), p@, by@) == replaced(s@, p@, by@),
        decreases n - i,
    {
        let ghost held = out@;
        let ghost rest = s@.skip(i as int);
        assert(s@.subrange(i as int, n as int) =~= rest);
        if m > 0 && starts_with(s.substring_char(i, n), p) {
            out.append(by);
            assert(rest.skip(m as int) =~= s@.skip(i + m));
            assert(held + (by@ + replaced(s@.skip(i + m), p@, by@)) =~= out@ + replaced(
                s@.skip(i + m),
                p@,
                by@,
            ));
            i += m;
        } else {
            if m == 0 {
                out.append(by);
            }
            out.append(s.substring_char(i, i + 1));
            assert(s@.subrange(i as int, i + 1) =~= rest.take(1));
            assert(rest.skip(1) =~= s@.skip(i + 1));
            proof {
                let tail = replaced(s@.skip(i + 1), p@, by@);
                if m == 0 {
                    assert(held + (by@ + rest.take(1) + tail) =~= out@ + tail);
                } else {
                    assert(held + (rest.take(1) + tail) =~= out@ + tail);
                }
            }
            i += 1;
        }
    }
    assert(s@.skip(n as int) =~= Seq::<char>::empty());
    if m == 0 {
        out.append(by);
    }
    assert(out@ =~= replaced(s@, p@, by@));
    out
}

/// What stands between two texts stands in all of it.
pub proof fn lemma_occurs_between(a: Seq<char>, p: Seq<char>, b: Seq<char>)
    ensures
        occurs(a + p + b, p),
{
    let s = a + p + b;
    assert(s.skip(a.len() as int).take(p.len() as int) =~= p);
    assert(begins(s.skip(a.len() as int), p));
}

/// What stands in a part of a text stands in all of it.
pub proof fn lemma_occurs_around(a: Seq<char>, s: Seq<char>, b: Seq<char>, p: Seq<char>)
    requires
        occurs(s, p),
    ensures
        occurs(a + s + b, p),
{
    let i = choose|i: int| 0 <= i <= s.len() && #[trigger] begins(s.skip(i), p);
    let t = a + s + b;
    assert(t.skip(a.len() + i).take(p.len() as int) =~= s.skip(i).take(p.len() as int));
    assert(begins(t.skip(a.len() + i), p));
}

/// Reading the digits of a number gives the number back.
pub proof fn law_written_number_is_read(n: u64)
    ensures
        number_of(decimal(n as nat)) == Some(n),
{
    lemma_decimal_read(n as nat);
}

proof fn lemma_decimal_read(n: nat)
    ensures
        digits_value(decimal(n)) == Some(n),
        decimal(n).len() > 0,
        decimal(n)[0] != '+',
    decreases n,
{
    let d = decimal(n);
    if n >= 10 {
        lemma_decimal_read(n / 10);
        assert(d.drop_last() =~= decimal(n / 10));
        assert(d[0] == decimal(n / 10)[0]);
        assert(digit_value(d.last()) == Some(n % 10));
        assert(n / 10 * 10 + n % 10 == n);
    } else {
        assert(d.drop_last() =~= Seq::<char>::empty());
        assert(digits_value(d.drop_last()) == Some(0nat));
        assert(digit_value(d.last()) == Some(n));
    }
}

/// A text without blanks at either end stays; blanks around a text go, and nothing else does.
pub proof fn law_trimming_takes_blanks_around(a: Seq<char>, s: Seq<char>, b: Seq<char>)
    requires
        forall|i: int| 0 <= i < a.len() ==> is_space(#[trigger] a[i]),
        forall|i: int| 0 <= i < b.len() ==> is_space(#[trigger] b[i]),
        s.len() > 0 ==> !is_space(s[0]) && !is_space(s.last()),
    ensures
        trimmed(a + s + b) == s,
    decreases a.len() + b.len(),
{
    if a.len() > 0 {
        let t = a + s + b;
        assert(t[0] == a[0]);
        assert(t.drop_first() =~= a.drop_first() + s + b);
        assert forall|i: int| 0 <= i < a.drop_first().len() implies is_space(
            #[trigger] a.drop_first()[i],
        ) by {
            assert(a.drop_first()[i] == a[i + 1]);
        }
        law_trimming_takes_blanks_around(a.drop_first(), s, b);
    } else if s.len() == 0 {
        assert(a + s + b =~= b);
        lemma_blank_start(b);
    } else {
        assert(a + s + b =~= s + b);
        assert((s + b)[0] == s[0]);
        lemma_blank_end(s, b);
    }
}

proof fn lemma_blank_start(b: Seq<char>)
    requires
        forall|i: int| 0 <= i < b.len() ==> is_space(#[trigger] b[i]),
    ensures
        trimmed_start(b).len() == 0,
    decreases b.len(),
{
    if b.len() > 0 {
        assert forall|i: int| 0 <= i < b.drop_first().len() implies is_space(
            #[trigger] b.drop_first()[i],
        ) by {
            assert(b.drop_first()[i] == b[i + 1]);
        }
        lemma_blank_start(b.drop_first());
    }
}

proof fn lemma_blank_end(s: Seq<char>, b: Seq<char>)
    requires
        forall|i: int| 0 <= i < b.len() ==> is_space(#[trigger] b[i]),
        s.len() > 0 ==> !is_space(s.last()),
    ensures
        trimmed_end(s + b) == s,
    decreases b.len(),
{
    if b.len() > 0 {
        assert((s + b).last() == b.last());
        assert((s + b).drop_last() =~= s + b.drop_last());
        lemma_blank_end(s, b.drop_last());
    } else {
        assert(s + b =~= s);
    }
}

/// A name comes before another where it is a proper beginning of it, or where the first character
/// in which they differ is the smaller.
pub proof fn law_names_go_by_first_difference(a: Seq<char>, b: Seq<char>, n: int)
    requires
        0 <= n <= a.len(),
        n <= b.len(),
        a.take(n) == b.take(n),
    ensures
        n == a.len() && n < b.len() ==> lex_less(a, b),
        n < a.len() && n < b.len() && a[n] < b[n] ==> lex_less(a, b),
        n < a.len() && n < b.len() && a[n] > b[n] ==> lex_less(b, a),
    decreases n,
{
    if n > 0 {
        assert(a.take(n)[0] == b.take(n)[0]);
        let x = a.drop_first();
        let y = b.drop_first();
        assert forall|i: int| 0 <= i < n implies a[i] == b[i] by {
            assert(a.take(n)[i] == a[i]);
            assert(b.take(n)[i] == b[i]);
        }
        assert forall|i: int| 0 <= i < n - 1 implies x[i] == y[i] by {
            assert(x[i] == a[i + 1]);
            assert(y[i] == b[i + 1]);
        }
        assert(x.take(n - 1) =~= y.take(n - 1));
        law_names_go_by_first_difference(x, y, n - 1);
    }
}

/// A text is its pieces with the separator between them, and no piece holds it.
pub proof fn law_pieces_make_the_text(s: Seq<char>, c: char)
    ensures
        joined(pieces(s, c), seq![c]) == s,
        pieces(s, c).len() > 0,
        forall|i: int| 0 <= i < pieces(s, c).len() ==> !(#[trigger] pieces(s, c)[i]).contains(c),
    decreases s.len(),
{
    let n = first_at(s, c);
    lemma_first_place(s, c);
    if n < s.len() {
        let rest = s.skip(n + 1);
        law_pieces_make_the_text(rest, c);
        lemma_joined_front(s.take(n), pieces(rest, c), seq![c]);
        assert(s =~= s.take(n) + seq![c] + rest);
    } else {
        assert(pieces(s, c) =~= seq![s]);
    }
}

pub(crate) proof fn lemma_first_place(s: Seq<char>, c: char)
    ensures
        0 <= first_at(s, c) <= s.len(),
        first_at(s, c) < s.len() ==> s[first_at(s, c)] == c,
        forall|i: int| 0 <= i < first_at(s, c) ==> #[trigger] s[i] != c,
        !s.take(first_at(s, c)).contains(c),
    decreases s.len(),
{
    if s.len() > 0 && s[0] != c {
        let t = s.drop_first();
        lemma_first_place(t, c);
        assert forall|i: int| 0 <= i < first_at(s, c) implies #[trigger] s[i] != c by {
            if i > 0 {
                assert(t[i - 1] == s[i]);
            }
        }
    }
}

proof fn lemma_joined_front(first: Seq<char>, rest: Seq<Seq<char>>, sep: Seq<char>)
    requires
        rest.len() > 0,
    ensures
        joined(seq![first] + rest, sep) == first + sep + joined(rest, sep),
    decreases rest.len(),
{
    let whole = seq![first] + rest;
    assert(whole.drop_last() =~= seq![first] + rest.drop_last());
    assert(whole.last() == rest.last());
    if rest.len() == 1 {
        assert(whole.drop_last() =~= seq![first]);
        assert(joined(seq![first], sep) == first);
    } else {
        lemma_joined_front(first, rest.drop_last(), sep);
        assert(first + sep + joined(rest.drop_last(), sep) + sep + rest.last() =~= first + sep + (
        joined(rest.drop_last(), sep) + sep + rest.last()));
    }
}

/// A joined list holds its parts in their order, with the separator between each two.
pub proof fn law_joining_puts_separators_between(
    parts: Seq<Seq<char>>,
    part: Seq<char>,
    sep: Seq<char>,
)
    ensures
        joined(Seq::<Seq<char>>::empty(), sep).len() == 0,
        joined(seq![part], sep) == part,
        parts.len() > 0 ==> joined(parts.push(part), sep) == joined(parts, sep) + sep + part,
        parts.len() > 0 ==> joined(seq![part] + parts, sep) == part + sep + joined(parts, sep),
{
    assert(parts.push(part).drop_last() =~= parts);
    if parts.len() > 0 {
        lemma_joined_front(part, parts, sep);
    }
}

/// Lines are what stands between line ends; a carriage return before a line end belongs to it.
pub proof fn law_lines_end_at_line_ends(line: Seq<char>, rest: Seq<char>)
    requires
        !line.contains('\n'),
    ensures
        lines_of(Seq::<char>::empty()).len() == 0,
        line.len() > 0 ==> lines_of(line) == seq![line],
        line.len() == 0 || line.last() != '\r' ==> lines_of(line + seq!['\n'] + rest)
            == seq![line] + lines_of(rest),
        lines_of(line + seq!['\r', '\n'] + rest) == seq![line] + lines_of(rest),
{
    assert forall|i: int| 0 <= i < line.len() implies #[trigger] line[i] != '\n' by {
        assert(line.contains(line[i]));
    }
    lemma_line_end(line, line.len() as int);
    let t = line + seq!['\n'] + rest;
    lemma_line_end(t, line.len() as int);
    assert(t.skip(line.len() as int + 1) =~= rest);
    assert(t.take(line.len() as int) =~= line);
    let u = line + seq!['\r', '\n'] + rest;
    lemma_line_end(u, line.len() as int + 1);
    assert(u.skip(line.len() as int + 2) =~= rest);
    assert(u.take(line.len() as int) =~= line);
}

proof fn lemma_line_end(s: Seq<char>, n: int)
    requires
        line_end(s, n),
    ensures
        first_end(s) == n,
    decreases s.len(),
{
    if s.len() > 0 && s[0] != '\n' {
        let t = s.drop_first();
        assert forall|i: int| 0 <= i < n - 1 implies t[i] != '\n' by {
            assert(t[i] == s[i + 1]);
        }
        lemma_line_end(t, n - 1);
    }
}

/// Replacing leaves a text alone that does not hold what is replaced, and puts the replacement in
/// place of it elsewhere.
pub proof fn law_replacing_changes_occurrences_only(
    s: Seq<char>,
    p: Seq<char>,
    by: Seq<char>,
)
    requires
        p.len() > 0,
    ensures
        !occurs(s, p) ==> replaced(s, p, by) == s,
        replaced(p + s, p, by) == by + replaced(s, p, by),
    decreases s.len(),
{
    assert((p + s).take(p.len() as int) =~= p);
    assert((p + s).skip(p.len() as int) =~= s);
    if s.len() > 0 && !occurs(s, p) {
        assert(s.skip(0) =~= s);
        assert(!begins(s.skip(0), p));
        let t = s.skip(1);
        assert forall|i: int| 0 <= i <= t.len() implies !(#[trigger] begins(t.skip(i), p)) by {
            assert(t.skip(i) =~= s.skip(i + 1));
            assert(!begins(s.skip(i + 1), p));
        }
        law_replacing_changes_occurrences_only(t, p, by);
        assert(s.take(1) + t =~= s);
    }
}

/// A padded text begins with the text, has at least the width, and is filled up with blanks.
pub proof fn law_padding_fills_up(s: Seq<char>, n: nat)
    ensures
        s.len() >= n ==> padded(s, n) == s,
        s.len() < n ==> padded(s, n).len() == n,
        padded(s, n).take(s.len() as int) == s,
        forall|i: int| s.len() <= i < padded(s, n).len() ==> #[trigger] padded(s, n)[i] == ' ',
{
}

/// Leaving a name out keeps every other entry, in order.
pub proof fn law_leaving_out_keeps_the_others(s: Seq<Seq<char>>, x: Seq<char>, b: Seq<char>)
    ensures
        without(Seq::<Seq<char>>::empty(), b).len() == 0,
        x == b ==> without(s.push(x), b) == without(s, b),
        x != b ==> without(s.push(x), b) == without(s, b).push(x),
{
    reveal(Seq::filter);
    assert(s.push(x).drop_last() =~= s);
}

/// A path joined to a directory lies below it by one slash; an absolute one stands alone.
pub proof fn law_joined_path_has_one_slash(dir: Seq<char>, rel: Seq<char>)
    ensures
        rel.len() > 0 && rel[0] == '/' ==> path_joined(dir, rel) == rel,
        (rel.len() == 0 || rel[0] != '/') && dir.len() > 0 && dir.last() != '/' ==> path_joined(
            dir,
            rel,
        ) == dir + seq!['/'] + rel,
        (rel.len() == 0 || rel[0] != '/') && dir.len() > 0 && dir.last() == '/' ==> path_joined(
            dir,
            rel,
        ) == dir + rel,
{
    reveal_strlit("/");
    assert("/"@ =~= seq!['/']);
}

/// Slashes at the end of a text go, and nothing else does.
pub proof fn law_only_last_slashes_go(s: Seq<char>)
    ensures
        s.len() == 0 || s.last() != '/' ==> unslashed(s) == s,
        unslashed(s.push('/')) == unslashed(s),
        unslashed(s).len() <= s.len(),
        s.take(unslashed(s).len() as int) == unslashed(s),
        forall|i: int| unslashed(s).len() <= i < s.len() ==> #[trigger] s[i] == '/',
    decreases s.len(),
{
    assert(s.push('/').drop_last() =~= s);
    assert(s.take(s.len() as int) =~= s);
    if s.len() > 0 && s.last() == '/' {
        let low = s.drop_last();
        law_only_last_slashes_go(low);
        assert(s.take(unslashed(low).len() as int) =~= low.take(unslashed(low).len() as int));
        assert forall|i: int| unslashed(s).len() <= i < s.len() implies #[trigger] s[i] == '/' by {
            if i < low.len() {
                assert(low[i] == s[i]);
            }
        }
    }
}

/// A short form is the first characters, or all of a shorter text.
pub proof fn law_short_form_is_a_beginning(s: Seq<char>, n: nat)
    ensures
        prefix(s, n).len() <= n,
        s.len() <= n ==> prefix(s, n) == s,
        s.len() > n ==> prefix(s, n).len() == n && s.take(n as int) == prefix(s, n),
{
}

/// A name behind a slash is a piece of its own, behind those of what stands before it.
pub proof fn law_last_piece_stands_behind_the_others(dir: Seq<char>, name: Seq<char>, c: char)
    requires
        !name.contains(c),
    ensures
        pieces(dir + seq![c] + name, c) == pieces(dir, c).push(name),
    decreases dir.len(),
{
    let t = dir + seq![c] + name;
    let n = first_at(dir, c);
    lemma_first_place(dir, c);
    assert forall|i: int| 0 <= i < n implies t[i] != c by {
        assert(t[i] == dir[i]);
        assert(dir[i] != c);
    }
    assert(t[n] == c);
    lemma_first_at(t, c, n);
    if n < dir.len() {
        let rest = dir.skip(n + 1);
        law_last_piece_stands_behind_the_others(rest, name, c);
        assert(t.skip(n + 1) =~= rest + seq![c] + name);
        assert(t.take(n) =~= dir.take(n));
        assert(pieces(t, c) =~= pieces(dir, c).push(name));
    } else {
        assert(t.take(n) =~= dir);
        assert(t.skip(n + 1) =~= name);
        assert forall|i: int| 0 <= i < name.len() implies name[i] != c by {
            assert(name.contains(name[i]));
        }
        lemma_first_at(name, c, name.len() as int);
        assert(pieces(name, c) =~= seq![name]);
        assert(pieces(dir, c) =~= seq![dir]);
        assert(pieces(t, c) =~= seq![dir, name]);
    }
}

/// The names of a path go on with the name that is put behind it; an empty one and a dot add none.
/// That name is what the path is called by.
pub proof fn law_path_goes_on_with_its_last_name(dir: Seq<char>, name: Seq<char>)
    requires
        !name.contains('/'),
        dir.len() > 0,
    ensures
        name.len() > 0 && name != "."@ ==> path_names(dir + seq!['/'] + name) == path_names(
            dir,
        ).push(name),
        name.len() == 0 || name == "."@ ==> path_names(dir + seq!['/'] + name) == path_names(dir),
        name.len() > 0 && name != "."@ && name != ".."@ ==> base_name(dir + seq!['/'] + name)
            == name,
        name == ".."@ ==> base_name(dir + seq!['/'] + name) == dir + seq!['/'] + name,
{
    let t = dir + seq!['/'] + name;
    law_last_piece_stands_behind_the_others(dir, name, '/');
    law_pieces_make_the_text(dir, '/');
    assert(t[0] == dir[0]);
    let p = pieces(dir, '/');
    assert(p.push(name).drop_last() =~= p);
    reveal_strlit(".");
    reveal_strlit("..");
    assert("."@.len() == 1);
    assert(".."@.len() == 2);
}

} // verus!
