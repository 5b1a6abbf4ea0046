//! Text: equality, trimming, splitting, substring search and slices.
//!
//! Every function here is stated over `Seq<char>`, the view of `str` and
//! `String`.
use vstd::prelude::*;
use vstd::utf8::*;

verus! {

/// `String::push` appends one character to the end of the string.
pub assume_specification[ String::push ](s: &mut String, ch: char)
    ensures
        final(s)@ == old(s)@.push(ch),
;

/// The characters with the Unicode property `White_Space`.
pub open spec fn white_space(c: char) -> bool {
    let u = c as u32;
    ||| 0x09 <= u <= 0x0d
    ||| u == 0x20
    ||| u == 0x85
    ||| u == 0xa0
    ||| u == 0x1680
    ||| 0x2000 <= u <= 0x200a
    ||| u == 0x2028
    ||| u == 0x2029
    ||| u == 0x202f
    ||| u == 0x205f
    ||| u == 0x3000
}

/// `char::is_whitespace` tells whether a character has the Unicode property
/// `White_Space`.
pub assume_specification[ char::is_whitespace ](c: char) -> (r: bool)
    ensures
        r == white_space(c),
;

/// What `str::to_lowercase` makes of a text: its Unicode lowercase mapping,
/// the final-sigma rule of Unicode included.
pub uninterp spec fn lowercase(s: Seq<char>) -> Seq<char>;

/// `str::to_lowercase`. The result is a function of the text alone; nothing
/// else is said of it.
#[verifier::external_body]
pub(crate) fn to_lowercase(s: &str) -> (r: String)
    ensures
        r@ == lowercase(s@),
{
    s.to_lowercase()
}

/// The texts behind a sequence of strings.
pub open spec fn texts(v: Seq<String>) -> Seq<Seq<char>> {
    v.map_values(|s: String| s@)
}

/// The text behind an optional string.
pub open spec fn opt_text(o: Option<String>) -> Option<Seq<char>> {
    match o {
        Some(s) => Some(s@),
        None => None,
    }
}

/// The text behind an optional text.
pub open spec fn opt_str(o: Option<&str>) -> Option<Seq<char>> {
    match o {
        Some(s) => Some(s@),
        None => None,
    }
}

/// The texts behind an optional list of strings.
pub open spec fn opt_texts(o: Option<Vec<String>>) -> Option<Seq<Seq<char>>> {
    match o {
        Some(v) => Some(texts(v@)),
        None => None,
    }
}

/// A copy of a list of strings.
pub fn copy_strings(v: &Vec<String>) -> (r: Vec<String>)
    ensures
        r@ == v@,
{
    let mut out: Vec<String> = Vec::new();
    let mut i: usize = 0;
    while i < v.len()
        invariant
            i <= v@.len(),
            out@ == v@.take(i as int),
        decreases v@.len() - i,
    {
        out.push(v[i].clone());
        i = i + 1;
        assert(v@.take(i as int) =~= v@.take(i - 1).push(v@[i - 1]));
    }
    assert(v@.take(v@.len() as int) =~= v@);
    out
}

/// A copy of an optional list of strings.
pub fn copy_opt_strings(v: &Option<Vec<String>>) -> (r: Option<Vec<String>>)
    ensures
        match (r, *v) {
            (Some(a), Some(b)) => a@ == b@,
            (None, None) => true,
            _ => false,
        },
        opt_texts(r) == opt_texts(*v),
{
    match v {
        Some(list) => Some(copy_strings(list)),
        None => None,
    }
}

/// A copy of an optional string.
pub fn copy_opt(o: &Option<String>) -> (r: Option<String>)
    ensures
        r == *o,
{
    match o {
        Some(s) => Some(s.clone()),
        None => None,
    }
}

/// Whether a list holds a text.
pub fn has_text(list: &Vec<String>, text: &str) -> (r: bool)
    ensures
        r == texts(list@).contains(text@),
{
    let mut i: usize = 0;
    while i < list.len()
        invariant
            i <= list@.len(),
            forall|k: int| 0 <= k < i ==> (#[trigger] list@[k])@ != text@,
        decreases list@.len() - i,
    {
        if same_text(list[i].as_str(), text) {
            assert(texts(list@)[i as int] == text@);
            return true;
        }
        i = i + 1;
    }
    assert forall|k: int| 0 <= k < texts(list@).len() implies #[trigger] texts(list@)[k]
        != text@ by {
        assert(list@[k]@ != text@);
    }
    false
}

/// Whether two texts are the same.
pub fn same_text(a: &str, b: &str) -> (r: bool)
    ensures
        r == (a@ == b@),
{
    let x: String = a.to_owned();
    let y: String = b.to_owned();
    x == y
}

/// Whether a text has no characters.
pub fn is_empty_text(s: &str) -> (r: bool)
    ensures
        r == (s@.len() == 0),
{
    proof {
        reveal_strlit("");
        assert(s@.len() == 0 ==> s@ =~= ""@);
    }
    same_text(s, "")
}

/// The characters of a text.
pub fn chars_of(s: &str) -> (r: Vec<char>)
    ensures
        r@ == s@,
{
    let mut out: Vec<char> = Vec::new();
    for c in it: s.chars()
        invariant
            it.seq() == s@,
            out@ == s@.take(it.index() as int),
    {
        proof {
            assert(s@.take(it.index() + 1) =~= s@.take(it.index() as int).push(c));
        }
        out.push(c);
    }
    assert(s@.take(s@.len() as int) =~= s@);
    out
}

/// The string that holds the characters `from..to` of `chars`.
pub fn string_of(chars: &Vec<char>, from: usize, to: usize) -> (r: String)
    requires
        from <= to <= chars@.len(),
    ensures
        r@ == chars@.subrange(from as int, to as int),
{
    let mut out = String::new();
    let mut i: usize = from;
    while i < to
        invariant
            from <= i <= to <= chars@.len(),
            out@ == chars@.subrange(from as int, i as int),
        decreases to - i,
    {
        out.push(chars[i]);
        i = i + 1;
        assert(chars@.subrange(from as int, i as int) =~= chars@.subrange(
            from as int,
            i - 1,
        ).push(chars@[i - 1]));
    }
    out
}

/// `s` without the leading characters that `drop` holds of.
pub open spec fn strip_front(s: Seq<char>, drop: spec_fn(char) -> bool) -> Seq<char>
    decreases s.len(),
{
    if s.len() > 0 && drop(s[0]) {
        strip_front(s.drop_first(), drop)
    } else {
        s
    }
}

/// `s` without the trailing characters that `drop` holds of.
pub open spec fn strip_back(s: Seq<char>, drop: spec_fn(char) -> bool) -> Seq<char>
    decreases s.len(),
{
    if s.len() > 0 && drop(s.last()) {
        strip_back(s.drop_last(), drop)
    } else {
        s
    }
}

/// `s` without the leading and trailing characters that `drop` holds of.
pub open spec fn strip(s: Seq<char>, drop: spec_fn(char) -> bool) -> Seq<char> {
    strip_back(strip_front(s, drop), drop)
}

/// `s` without leading and trailing white space.
pub open spec fn trimmed(s: Seq<char>) -> Seq<char> {
    strip(s, |c: char| white_space(c))
}

proof fn lemma_strip_front(s: Seq<char>, drop: spec_fn(char) -> bool, n: int)
    requires
        0 <= n <= s.len(),
        forall|i: int| 0 <= i < n ==> drop(#[trigger] s[i]),
        n < s.len() ==> !drop(s[n]),
    ensures
        strip_front(s, drop) == s.skip(n),
    decreases n,
{
    if n == 0 {
        assert(s.skip(0) =~= s);
    } else {
        let rest = s.drop_first();
        assert forall|i: int| 0 <= i < n - 1 implies drop(#[trigger] rest[i]) by {
            assert(rest[i] == s[i + 1]);
        }
        lemma_strip_front(rest, drop, n - 1);
        assert(rest.skip(n - 1) =~= s.skip(n));
    }
}

proof fn lemma_strip_back(s: Seq<char>, drop: spec_fn(char) -> bool, n: int)
    requires
        0 <= n <= s.len(),
        forall|i: int| n <= i < s.len() ==> drop(#[trigger] s[i]),
        n > 0 ==> !drop(s[n - 1]),
    ensures
        strip_back(s, drop) == s.take(n),
    decreases s.len(),
{
    if n == s.len() {
        assert(s.take(n) =~= s);
    } else {
        let rest = s.drop_last();
        assert(drop(s[s.len() - 1]));
        assert forall|i: int| n <= i < rest.len() implies drop(#[trigger] rest[i]) by {
            assert(rest[i] == s[i]);
        }
        lemma_strip_back(rest, drop, n);
        assert(rest.take(n) =~= s.take(n));
    }
}

/// The end of the longest run from `from` whose characters all are in the
/// class that `class` decides.
fn run_end(chars: &Vec<char>, from: usize, class: CharClass) -> (n: usize)
    requires
        from <= chars@.len(),
    ensures
        from <= n <= chars@.len(),
        forall|i: int| from <= i < n ==> class.holds(#[trigger] chars@[i]),
        n < chars@.len() ==> !class.holds(chars@[n as int]),
{
    let mut n: usize = from;
    while n < chars.len() && class.check(chars[n])
        invariant
            from <= n <= chars@.len(),
            forall|i: int| from <= i < n ==> class.holds(#[trigger] chars@[i]),
        decreases chars@.len() - n,
    {
        n = n + 1;
    }
    n
}

/// The start of the longest run up to the end of `chars`, not beyond `from`,
/// whose characters all are in the class.
fn run_start(chars: &Vec<char>, from: usize, class: CharClass) -> (n: usize)
    requires
        from <= chars@.len(),
    ensures
        from <= n <= chars@.len(),
        forall|i: int| n <= i < chars@.len() ==> class.holds(#[trigger] chars@[i]),
        n > from ==> !class.holds(chars@[n - 1]),
{
    let mut n: usize = chars.len();
    while n > from && class.check(chars[n - 1])
        invariant
            from <= n <= chars@.len(),
            forall|i: int| n <= i < chars@.len() ==> class.holds(#[trigger] chars@[i]),
        decreases n,
    {
        n = n - 1;
    }
    n
}

/// A class of characters to strip from a text.
#[derive(Clone, Copy)]
pub enum CharClass {
    /// White space.
    White,
    /// The letters that may prefix a string literal.
    LiteralPrefix,
    /// The single and the double quote.
    Quote,
}

impl CharClass {
    /// Whether a character belongs to the class.
    pub open spec fn holds(self, c: char) -> bool {
        match self {
            CharClass::White => white_space(c),
            CharClass::LiteralPrefix => c == 'f' || c == 'r' || c == 'b' || c == 'u' || c == 'F'
                || c == 'R' || c == 'B' || c == 'U',
            CharClass::Quote => c == '\'' || c == '"',
        }
    }

    /// Whether a character belongs to the class.
    pub fn check(self, c: char) -> (r: bool)
        ensures
            r == self.holds(c),
    {
        match self {
            CharClass::White => c.is_whitespace(),
            CharClass::LiteralPrefix => c == 'f' || c == 'r' || c == 'b' || c == 'u' || c == 'F'
                || c == 'R' || c == 'B' || c == 'U',
            CharClass::Quote => c == '\'' || c == '"',
        }
    }

    /// The class as a predicate.
    pub open spec fn pred(self) -> spec_fn(char) -> bool {
        |c: char| self.holds(c)
    }
}

/// `s` without its leading characters of a class.
pub fn strip_start_of(s: &str, class: CharClass) -> (r: String)
    ensures
        r@ == strip_front(s@, class.pred()),
{
    let chars = chars_of(s);
    let n = run_end(&chars, 0, class);
    proof {
        lemma_strip_front(s@, class.pred(), n as int);
        assert(s@.skip(n as int) =~= s@.subrange(n as int, s@.len() as int));
    }
    string_of(&chars, n, chars.len())
}

/// `s` without its leading and trailing characters of a class.
pub fn strip_of(s: &str, class: CharClass) -> (r: String)
    ensures
        r@ == strip(s@, class.pred()),
{
    let chars = chars_of(s);
    let n = run_end(&chars, 0, class);
    let m = run_start(&chars, n, class);
    proof {
        let front = s@.skip(n as int);
        lemma_strip_front(s@, class.pred(), n as int);
        assert forall|i: int| m - n <= i < front.len() implies (class.pred())(
            #[trigger] front[i],
        ) by {
            assert(front[i] == s@[i + n]);
        }
        if m > n {
            assert(front[m - n - 1] == s@[m - 1]);
        }
        lemma_strip_back(front, class.pred(), m - n);
        assert(front.take(m - n) =~= s@.subrange(n as int, m as int));
    }
    string_of(&chars, n, m)
}

/// `s` without leading and trailing white space.
pub fn trim(s: &str) -> (r: String)
    ensures
        r@ == trimmed(s@),
{
    proof {
        assert(CharClass::White.pred() =~= (|c: char| white_space(c)));
    }
    strip_of(s, CharClass::White)
}

/// The parts of `s` between the occurrences of `sep`, in order. A text
/// without `sep` has one part.
pub open spec fn split(s: Seq<char>, sep: char) -> Seq<Seq<char>>
    decreases s.len(),
{
    if s.len() == 0 {
        seq![Seq::<char>::empty()]
    } else {
        let before = split(s.drop_last(), sep);
        if s.last() == sep {
            before.push(Seq::<char>::empty())
        } else {
            before.drop_last().push(before.last().push(s.last()))
        }
    }
}

/// The parts of `s` between the occurrences of `sep`, in order.
pub fn split_on(s: &str, sep: char) -> (r: Vec<String>)
    ensures
        texts(r@) == split(s@, sep),
{
    let mut parts: Vec<String> = Vec::new();
    let mut current = String::new();
    for c in it: s.chars()
        invariant
            it.seq() == s@,
            split(s@.take(it.index() as int), sep) == texts(parts@).push(current@),
    {
        let ghost seen = s@.take(it.index() as int);
        let ghost done = texts(parts@);
        proof {
            assert(s@.take(it.index() + 1) =~= seen.push(c));
            assert(seen.push(c).drop_last() =~= seen);
            assert(done.push(current@).drop_last() =~= done);
        }
        if c == sep {
            let ghost part = current@;
            parts.push(current);
            current = String::new();
            assert(texts(parts@) =~= done.push(part));
        } else {
            current.push(c);
        }
    }
    let ghost done = texts(parts@);
    let ghost part = current@;
    parts.push(current);
    proof {
        assert(s@.take(s@.len() as int) =~= s@);
        assert(texts(parts@) =~= done.push(part));
    }
    parts
}

/// Whether `needle` occurs in `s` at position `at`.
pub open spec fn occurs_at(s: Seq<char>, needle: Seq<char>, at: int) -> bool {
    0 <= at && at + needle.len() <= s.len() && s.subrange(at, at + needle.len()) == needle
}

/// Whether `needle` is a substring of `s`.
pub open spec fn contains(s: Seq<char>, needle: Seq<char>) -> bool {
    exists|at: int| #[trigger] occurs_at(s, needle, at)
}

fn occurs(s: &Vec<char>, needle: &Vec<char>, at: usize) -> (r: bool)
    requires
        at + needle@.len() <= s@.len(),
    ensures
        r == occurs_at(s@, needle@, at as int),
{
    let size: usize = s.len();
    let mut i: usize = 0;
    while i < needle.len()
        invariant
            i <= needle@.len(),
            at + needle@.len() <= s@.len() == size,
            forall|k: int| 0 <= k < i ==> s@[at + k] == needle@[k],
        decreases needle@.len() - i,
    {
        if s[at + i] != needle[i] {
            proof {
                let part = s@.subrange(at as int, at + needle@.len());
                assert(part[i as int] != needle@[i as int]);
            }
            return false;
        }
        i = i + 1;
    }
    assert(s@.subrange(at as int, at + needle@.len()) =~= needle@);
    true
}

/// Whether `needle` is a substring of `s`.
pub fn contains_text(s: &str, needle: &str) -> (r: bool)
    ensures
        r == contains(s@, needle@),
{
    let text = chars_of(s);
    let pat = chars_of(needle);
    if pat.len() > text.len() {
        return false;
    }
    let last: usize = text.len() - pat.len();
    let mut at: usize = 0;
    while at <= last
        invariant
            at <= last + 1,
            last + pat@.len() == text@.len(),
            text@ == s@,
            pat@ == needle@,
            forall|k: int| 0 <= k < at ==> !occurs_at(s@, needle@, k),
        decreases last + 1 - at,
    {
        if occurs(&text, &pat, at) {
            return true;
        }
        if at == last {
            assert(forall|k: int| !occurs_at(s@, needle@, k));
            return false;
        }
        at = at + 1;
    }
    false
}

/// Whether `s` begins with `prefix`.
pub open spec fn starts_with(s: Seq<char>, prefix: Seq<char>) -> bool {
    occurs_at(s, prefix, 0)
}

/// What follows `prefix` in `s`, if `s` begins with it.
pub fn after_prefix(s: &str, prefix: &str) -> (r: Option<String>)
    ensures
        match r {
            Some(rest) => starts_with(s@, prefix@) && rest@ == s@.skip(prefix@.len() as int),
            None => !starts_with(s@, prefix@),
        },
{
    let text = chars_of(s);
    let pat = chars_of(prefix);
    if pat.len() <= text.len() && occurs(&text, &pat, 0) {
        let rest = string_of(&text, pat.len(), text.len());
        assert(rest@ =~= s@.skip(prefix@.len() as int));
        Some(rest)
    } else {
        None
    }
}

/// The text at the bytes `from..to` of the UTF-8 form of `s`; `None` where
/// that is not a range of `s` between two characters.
pub open spec fn byte_slice(s: Seq<char>, from: nat, to: nat) -> Option<Seq<char>> {
    let bytes = encode_utf8(s);
    if from <= to && is_char_boundary(bytes, from as int) && is_char_boundary(bytes, to as int) {
        Some(decode_utf8(bytes.subrange(from as int, to as int)))
    } else {
        None
    }
}

proof fn lemma_boundary_in_prefix(bytes: Seq<u8>, at: int, end: int)
    requires
        valid_utf8(bytes),
        is_char_boundary(bytes, at),
        is_char_boundary(bytes, end),
        0 <= at <= end <= bytes.len(),
    ensures
        valid_utf8(bytes.subrange(0, end)),
        is_char_boundary(bytes.subrange(0, end), at),
{
    let head = bytes.subrange(0, end);
    valid_utf8_split(bytes, end);
    if at == end {
        is_char_boundary_start_end_of_seq(head);
    } else {
        is_char_boundary_iff_not_is_continuation_byte(bytes, at);
        is_char_boundary_iff_not_is_continuation_byte(head, at);
    }
}

proof fn lemma_boundary_in_range(bytes: Seq<u8>, at: int)
    requires
        valid_utf8(bytes),
        is_char_boundary(bytes, at),
    ensures
        0 <= at <= bytes.len(),
{
}

/// The text at the bytes `from..to` of `s`, as `str::get` gives it.
pub fn slice_bytes(s: &str, from: usize, to: usize) -> (r: Option<String>)
    ensures
        opt_text(r) == byte_slice(s@, from as nat, to as nat),
{
    proof {
        encode_utf8_valid_utf8(s@);
    }
    if from <= to && s.is_char_boundary(from) && s.is_char_boundary(to) {
        let ghost bytes = encode_utf8(s@);
        proof {
            lemma_boundary_in_range(bytes, to as int);
            lemma_boundary_in_prefix(bytes, from as int, to as int);
        }
        let (head, _tail) = s.split_at(to);
        let (_front, part) = head.split_at(from);
        proof {
            assert(encode_utf8(part@) =~= bytes.subrange(from as int, to as int));
            encode_utf8_decode_utf8(part@);
        }
        Some(part.to_owned())
    } else {
        None
    }
}

/// What a view tells of an optional text or list is all of it.
pub proof fn views_leave_nothing_out(
    o: Option<String>,
    s: Option<&str>,
    list: Seq<String>,
    lists: Option<Vec<String>>,
)
    ensures
        opt_text(o) is None <==> o is None,
        o matches Some(text) ==> opt_text(o) == Some(text@),
        opt_str(s) is None <==> s is None,
        s matches Some(text) ==> opt_str(s) == Some(text@),
        texts(list).len() == list.len(),
        forall|i: int| 0 <= i < list.len() ==> #[trigger] texts(list)[i] == list[i]@,
        opt_texts(lists) is None <==> lists is None,
        lists matches Some(v) ==> (opt_texts(lists) matches Some(t) && t.len() == v@.len() && forall|
            i: int,
        |
            0 <= i < v@.len() ==> #[trigger] t[i] == v@[i]@),
{
}

/// The classes of characters that are stripped: white space holds the tab, the
/// line breaks and the space but no visible ASCII character; a literal is
/// prefixed by the letters `f`, `r`, `b` and `u`, small or capital; a quote is
/// single or double.
pub proof fn classes_hold_their_characters(c: char)
    ensures
        CharClass::White.holds(c) <==> white_space(c),
        c == ' ' || c == '\t' || c == '\n' || c == '\r' ==> white_space(c),
        '!' <= c <= '~' ==> !white_space(c),
        CharClass::LiteralPrefix.holds(c) <==> "frbuFRBU"@.contains(c),
        CharClass::Quote.holds(c) <==> "'\""@.contains(c),
        forall|class: CharClass| (#[trigger] class.pred())(c) <==> class.holds(c),
{
    reveal_strlit("frbuFRBU");
    reveal_strlit("'\"");
    let letters = "frbuFRBU"@;
    let quotes = "'\""@;
    assert(letters[0] == 'f' && letters[1] == 'r' && letters[2] == 'b' && letters[3] == 'u');
    assert(letters[4] == 'F' && letters[5] == 'R' && letters[6] == 'B' && letters[7] == 'U');
    assert(quotes[0] == '\'' && quotes[1] == '"');
    if letters.contains(c) {
        let k = choose|k: int| 0 <= k < letters.len() && letters[k] == c;
        assert(k == 0 || k == 1 || k == 2 || k == 3 || k == 4 || k == 5 || k == 6 || k == 7);
    }
    if quotes.contains(c) {
        let k = choose|k: int| 0 <= k < quotes.len() && quotes[k] == c;
        assert(k == 0 || k == 1);
    }
}

/// Stripping the front of a text takes off a run of characters of the class and
/// no more: the run and what is left make up the text, and what is left does not
/// begin with such a character. Gives the run.
pub proof fn stripping_the_front_takes_off_a_run(s: Seq<char>, drop: spec_fn(char) -> bool) -> (run:
    Seq<char>)
    ensures
        s == run + strip_front(s, drop),
        forall|i: int| 0 <= i < run.len() ==> drop(#[trigger] run[i]),
        strip_front(s, drop).len() > 0 ==> !drop(strip_front(s, drop)[0]),
    decreases s.len(),
{
    if s.len() > 0 && drop(s[0]) {
        let rest = s.drop_first();
        let run = stripping_the_front_takes_off_a_run(rest, drop);
        let longer = seq![s[0]] + run;
        assert(s =~= longer + strip_front(s, drop)) by {
            assert(s =~= seq![s[0]] + rest);
        }
        assert forall|i: int| 0 <= i < longer.len() implies drop(#[trigger] longer[i]) by {
            if i > 0 {
                assert(longer[i] == run[i - 1]);
            }
        }
        longer
    } else {
        assert(s =~= Seq::<char>::empty() + s);
        Seq::empty()
    }
}

proof fn lemma_strip_back_run(s: Seq<char>, drop: spec_fn(char) -> bool) -> (run: Seq<char>)
    ensures
        s == strip_back(s, drop) + run,
        forall|i: int| 0 <= i < run.len() ==> drop(#[trigger] run[i]),
        strip_back(s, drop).len() > 0 ==> !drop(strip_back(s, drop).last()),
    decreases s.len(),
{
    if s.len() > 0 && drop(s.last()) {
        let rest = s.drop_last();
        let run = lemma_strip_back_run(rest, drop);
        let longer = run.push(s.last());
        assert(s =~= strip_back(s, drop) + longer) by {
            assert(s =~= rest.push(s.last()));
        }
        longer
    } else {
        assert(s =~= s + Seq::<char>::empty());
        Seq::empty()
    }
}

/// Stripping a text takes off a run of characters of the class at each end and
/// no more: what is left neither begins nor ends with such a character. Gives
/// the two runs.
pub proof fn stripping_takes_off_a_run_at_each_end(s: Seq<char>, drop: spec_fn(char) -> bool) -> (
    runs: (Seq<char>, Seq<char>))
    ensures
        s == runs.0 + strip(s, drop) + runs.1,
        forall|i: int| 0 <= i < runs.0.len() ==> drop(#[trigger] runs.0[i]),
        forall|i: int| 0 <= i < runs.1.len() ==> drop(#[trigger] runs.1[i]),
        strip(s, drop).len() > 0 ==> !drop(strip(s, drop)[0]) && !drop(strip(s, drop).last()),
{
    let front = stripping_the_front_takes_off_a_run(s, drop);
    let middle = strip_front(s, drop);
    let back = lemma_strip_back_run(middle, drop);
    assert(s =~= front + strip(s, drop) + back);
    if strip(s, drop).len() > 0 {
        assert(strip(s, drop)[0] == middle[0]);
    }
    (front, back)
}

/// Trimming takes white space off both ends and nothing else: what is left
/// neither begins nor ends with white space, and with the white space that was
/// taken off it makes up the text. Gives what was taken off.
pub proof fn trimming_takes_off_white_space(s: Seq<char>) -> (runs: (Seq<char>, Seq<char>))
    ensures
        s == runs.0 + trimmed(s) + runs.1,
        forall|i: int| 0 <= i < runs.0.len() ==> white_space(#[trigger] runs.0[i]),
        forall|i: int| 0 <= i < runs.1.len() ==> white_space(#[trigger] runs.1[i]),
        trimmed(s).len() > 0 ==> !white_space(trimmed(s)[0]) && !white_space(trimmed(s).last()),
        trimmed(s).len() == 0 ==> forall|i: int|
            0 <= i < s.len() ==> white_space(#[trigger] s[i]),
{
    let runs = stripping_takes_off_a_run_at_each_end(s, |c: char| white_space(c));
    if trimmed(s).len() == 0 {
        assert forall|i: int| 0 <= i < s.len() implies white_space(#[trigger] s[i]) by {
            if i < runs.0.len() {
                assert(s[i] == runs.0[i]);
            } else {
                assert(s[i] == runs.1[i - runs.0.len()]);
            }
        }
    }
    runs
}

/// The parts, with a separator between each two.
pub open spec fn joined(parts: Seq<Seq<char>>, sep: char) -> Seq<char>
    decreases parts.len(),
{
    if parts.len() == 0 {
        Seq::empty()
    } else if parts.len() == 1 {
        parts[0]
    } else {
        joined(parts.drop_last(), sep).push(sep) + parts.last()
    }
}

/// Splitting a text loses nothing: there is at least one part, no part holds the
/// separator, and joining the parts gives the text back.
pub proof fn joining_undoes_splitting(s: Seq<char>, sep: char)
    ensures
        split(s, sep).len() > 0,
        forall|i: int| 0 <= i < split(s, sep).len() ==> !(#[trigger] split(s, sep)[i]).contains(sep),
        joined(split(s, sep), sep) == s,
    decreases s.len(),
{
    if s.len() == 0 {
        assert(s =~= Seq::empty());
    } else {
        let before = split(s.drop_last(), sep);
        let parts = split(s, sep);
        joining_undoes_splitting(s.drop_last(), sep);
        assert(s =~= s.drop_last().push(s.last()));
        if s.last() == sep {
            assert(parts.drop_last() =~= before);
            assert(joined(parts, sep) =~= s);
            assert forall|i: int| 0 <= i < parts.len() implies !(#[trigger] parts[i]).contains(
                sep,
            ) by {
                if i < before.len() {
                    assert(!before[i].contains(sep));
                }
            }
        } else {
            let longer = before.last().push(s.last());
            assert(parts.drop_last() =~= before.drop_last());
            assert(parts.last() == longer);
            if before.len() > 1 {
                assert(joined(parts, sep) =~= s);
            } else {
                assert(parts[0] =~= s);
            }
            assert forall|i: int| 0 <= i < parts.len() implies !(#[trigger] parts[i]).contains(
                sep,
            ) by {
                if i < before.len() - 1 {
                    assert(parts[i] == before[i]);
                } else {
                    assert(!before[i].contains(sep));
                    assert forall|k: int| 0 <= k < longer.len() implies longer[k] != sep by {
                        if k < before[i].len() {
                            assert(before[i].contains(before[i][k]));
                        }
                    }
                }
            }
        }
    }
}

/// A text contains what it is made up of: a text with anything before it and
/// anything behind it contains that text, and with nothing before it begins
/// with it.
pub proof fn a_part_stands_in_its_text(before: Seq<char>, part: Seq<char>, behind: Seq<char>)
    ensures
        contains(before + part + behind, part),
        starts_with(part + behind, part),
{
    let s = before + part + behind;
    assert(s.subrange(before.len() as int, (before.len() + part.len()) as int) =~= part);
    assert(occurs_at(s, part, before.len() as int));
    assert((part + behind).subrange(0, part.len() as int) =~= part);
}

/// A text that contains another is made up of it with something before it and
/// something behind it. Gives these two.
pub proof fn a_text_is_made_up_round_its_part(s: Seq<char>, part: Seq<char>) -> (rest: (
    Seq<char>,
    Seq<char>,
))
    requires
        contains(s, part),
    ensures
        s == rest.0 + part + rest.1,
{
    let at = choose|at: int| #[trigger] occurs_at(s, part, at);
    let rest = (s.take(at), s.skip(at + part.len()));
    assert(s =~= s.take(at) + s.subrange(at, at + part.len()) + s.skip(at + part.len()));
    rest
}

/// A text that begins with another is that other text with the rest behind it.
pub proof fn a_text_is_its_beginning_and_the_rest(s: Seq<char>, prefix: Seq<char>)
    requires
        starts_with(s, prefix),
    ensures
        prefix.len() <= s.len(),
        s == prefix + s.skip(prefix.len() as int),
{
    assert(s =~= s.subrange(0, prefix.len() as int) + s.skip(prefix.len() as int));
}

/// A slice of a text holds the bytes of its range, these and no others; there
/// is none where the range is turned round or goes beyond the text; and the
/// whole range is the whole text.
pub proof fn a_slice_holds_the_bytes_of_its_range(s: Seq<char>, from: nat, to: nat)
    ensures
        byte_slice(s, from, to) matches Some(part) ==> from <= to && to <= encode_utf8(s).len()
            && encode_utf8(part) == encode_utf8(s).subrange(from as int, to as int),
        from > to || to > encode_utf8(s).len() ==> byte_slice(s, from, to) is None,
        byte_slice(s, 0, encode_utf8(s).len()) == Some(s),
{
    let bytes = encode_utf8(s);
    encode_utf8_valid_utf8(s);
    is_char_boundary_start_end_of_seq(bytes);
    encode_utf8_decode_utf8(s);
    assert(bytes.subrange(0, bytes.len() as int) =~= bytes);
    if byte_slice(s, from, to) is Some {
        lemma_boundary_in_prefix(bytes, from as int, to as int);
        let head = bytes.subrange(0, to as int);
        valid_utf8_split(head, from as int);
        let part = bytes.subrange(from as int, to as int);
        assert(head.subrange(from as int, head.len() as int) =~= part);
        decode_utf8_encode_utf8(part);
    }
}

/// A text that stands in a source between two other texts is the slice of the
/// source at its bytes.
pub proof fn a_slice_is_the_text_that_stands_there(
    before: Seq<char>,
    part: Seq<char>,
    behind: Seq<char>,
)
    ensures
        byte_slice(
            before + part + behind,
            encode_utf8(before).len(),
            encode_utf8(before).len() + encode_utf8(part).len(),
        ) == Some(part),
{
    let s = before + part + behind;
    let bytes = encode_utf8(s);
    let a = encode_utf8(before).len();
    let b = a + encode_utf8(part).len();
    encoding_goes_part_by_part(before + part, behind);
    encoding_goes_part_by_part(before, part);
    encode_utf8_valid_utf8(s);
    encode_utf8_valid_utf8(before);
    encode_utf8_valid_utf8(part);
    encode_utf8_valid_utf8(behind);
    valid_utf8_concat(encode_utf8(part), encode_utf8(behind));
    valid_utf8_concat(encode_utf8(before), encode_utf8(part));
    lemma_boundary_between(encode_utf8(before), encode_utf8(part) + encode_utf8(behind));
    assert(bytes =~= encode_utf8(before) + (encode_utf8(part) + encode_utf8(behind)));
    lemma_boundary_between(encode_utf8(before) + encode_utf8(part), encode_utf8(behind));
    assert(bytes.subrange(a as int, b as int) =~= encode_utf8(part));
    encode_utf8_decode_utf8(part);
}

/// The bytes of two texts in a row are those of the one and then those of the
/// other.
pub proof fn encoding_goes_part_by_part(one: Seq<char>, other: Seq<char>)
    ensures
        encode_utf8(one + other) == encode_utf8(one) + encode_utf8(other),
    decreases one.len(),
{
    if one.len() == 0 {
        assert(one + other =~= other);
        assert(encode_utf8(one) + encode_utf8(other) =~= encode_utf8(other));
    } else {
        encoding_goes_part_by_part(one.drop_first(), other);
        assert((one + other).drop_first() =~= one.drop_first() + other);
        assert(encode_utf8(one + other) =~= encode_utf8(one) + encode_utf8(other));
    }
}

proof fn lemma_boundary_between(one: Seq<u8>, other: Seq<u8>)
    requires
        valid_utf8(one),
        valid_utf8(other),
    ensures
        valid_utf8(one + other),
        is_char_boundary(one + other, one.len() as int),
{
    valid_utf8_concat(one, other);
    let all = one + other;
    if other.len() == 0 {
        is_char_boundary_start_end_of_seq(all);
    } else {
        is_char_boundary_start_end_of_seq(other);
        is_char_boundary_iff_not_is_continuation_byte(other, 0);
        is_char_boundary_iff_not_is_continuation_byte(all, one.len() as int);
    }
}

} // verus!
