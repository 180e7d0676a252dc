//! Text helpers: code-point order, splitting, joining and concatenation.
//!
//! A text is modelled by its sequence of characters.
use vstd::prelude::*;

verus! {

broadcast use vstd::string::group_string_axioms;

/// Outcome of comparing two values.
#[derive(Debug, Clone, Copy, PartialEq, Eq, Structural)]
pub enum Order {
    /// The left value sorts first.
    Less,
    /// Neither value sorts before the other.
    Equal,
    /// The right value sorts first.
    Greater,
}

impl Order {
    /// The order seen from the other side.
    pub open spec fn flip(self) -> Order {
        match self {
            Order::Less => Order::Greater,
            Order::Equal => Order::Equal,
            Order::Greater => Order::Less,
        }
    }

    /// The order seen from the other side.
    pub fn reverse(self) -> (r: Order)
        ensures
            r == self.flip(),
    {
        match self {
            Order::Less => Order::Greater,
            Order::Equal => Order::Equal,
            Order::Greater => Order::Less,
        }
    }
}

/// `String::push` appends one character to the end of the text.
pub assume_specification[ String::push ](s: &mut String, c: char)
    ensures
        final(s)@ == old(s)@.push(c),
;

/// Order of two texts by code point, the first difference deciding; a proper
/// prefix sorts first.
pub open spec fn text_order(a: Seq<char>, b: Seq<char>) -> Order
    decreases a.len(),
{
    if a.len() == 0 && b.len() == 0 {
        Order::Equal
    } else if a.len() == 0 {
        Order::Less
    } else if b.len() == 0 {
        Order::Greater
    } else if a[0] != b[0] {
        if (a[0] as u32) < (b[0] as u32) {
            Order::Less
        } else {
            Order::Greater
        }
    } else {
        text_order(a.drop_first(), b.drop_first())
    }
}

/// The views of a list of strings.
pub open spec fn texts(v: Seq<String>) -> Seq<Seq<char>> {
    v.map_values(|s: String| s@)
}

/// The characters of `s`, in order.
pub fn chars_of(s: &str) -> (r: Vec<char>)
    ensures
        r@ == s@,
{
    let mut out: Vec<char> = Vec::new();
    for c in it: s.chars()
        invariant
            it.seq() == s@,
            out@ == s@.take(it.index()),
    {
        proof {
            assert(s@.take(it.index() + 1) =~= s@.take(it.index()).push(c));
        }
        out.push(c);
    }
    proof {
        assert(s@.take(s@.len() as int) =~= s@);
    }
    out
}

/// Two byte sequences hold the same bytes.
pub fn same_bytes(a: &[u8], b: &[u8]) -> (r: bool)
    ensures
        r == (a@ == b@),
{
    if a.len() != b.len() {
        return false;
    }
    let mut i: usize = 0;
    while i < a.len()
        invariant
            a@.len() == b@.len(),
            i <= a@.len(),
            forall|k: int| 0 <= k < i ==> a@[k] == b@[k],
        decreases a@.len() - i,
    {
        if a[i] != b[i] {
            return false;
        }
        i = i + 1;
    }
    proof {
        assert(a@ =~= b@);
    }
    true
}

/// Two texts hold the same characters.
pub fn same_text(a: &str, b: &str) -> (r: bool)
    ensures
        r == (a@ == b@),
{
    let r = same_bytes(a.as_bytes(), b.as_bytes());
    proof {
        vstd::utf8::encode_utf8_decode_utf8(a@);
        vstd::utf8::encode_utf8_decode_utf8(b@);
    }
    r
}

/// Compares two texts by code point.
pub fn compare_text(a: &str, b: &str) -> (r: Order)
    ensures
        r == text_order(a@, b@),
{
    let x = chars_of(a);
    let y = chars_of(b);
    let mut i: usize = 0;
    proof {
        assert(x@.skip(0) =~= a@);
        assert(y@.skip(0) =~= b@);
    }
    while i < x.len() && i < y.len()
        invariant
            x@ == a@,
            y@ == b@,
            i <= x@.len(),
            i <= y@.len(),
            text_order(a@, b@) == text_order(x@.skip(i as int), y@.skip(i as int)),
        decreases x@.len() - i,
    {
        let p = x[i];
        let q = y[i];
        if p != q {
            if (p as u32) < (q as u32) {
                return Order::Less;
            }
            return Order::Greater;
        }
        proof {
            assert(x@.skip(i as int).drop_first() =~= x@.skip(i + 1));
            assert(y@.skip(i as int).drop_first() =~= y@.skip(i + 1));
        }
        i = i + 1;
    }
    if x.len() < y.len() {
        Order::Less
    } else if y.len() < x.len() {
        Order::Greater
    } else {
        Order::Equal
    }
}

/// `a` begins with `prefix`.
pub open spec fn begins_with(a: Seq<char>, prefix: Seq<char>) -> bool {
    prefix.len() <= a.len() && a.take(prefix.len() as int) == prefix
}

/// `needle` stands in `a` at position `at`.
pub open spec fn stands_at(a: Seq<char>, needle: Seq<char>, at: int) -> bool {
    0 <= at && at + needle.len() <= a.len() && a.subrange(at, at + needle.len()) == needle
}

/// `needle` stands somewhere in `a`.
pub open spec fn holds_text(a: Seq<char>, needle: Seq<char>) -> bool {
    exists|at: int| stands_at(a, needle, at)
}

/// Whether `needle` stands in `hay` at position `at`.
pub fn matches_at(hay: &Vec<char>, needle: &Vec<char>, at: usize) -> (r: bool)
    ensures
        r == stands_at(hay@, needle@, at as int),
{
    if at > hay.len() || needle.len() > hay.len() - at {
        return false;
    }
    let mut i: usize = 0;
    while i < needle.len()
        invariant
            i <= needle@.len(),
            at + needle@.len() <= hay.len(),
            forall|k: int| 0 <= k < i ==> hay@[at + k] == needle@[k],
        decreases needle@.len() - i,
    {
        if hay[at + i] != needle[i] {
            proof {
                assert(hay@.subrange(at as int, at + needle@.len())[i as int] == hay@[at + i]);
            }
            return false;
        }
        i = i + 1;
    }
    proof {
        assert(hay@.subrange(at as int, at + needle@.len()) =~= needle@);
    }
    true
}

/// Whether `s` begins with `prefix`.
pub fn starts_with(s: &str, prefix: &str) -> (r: bool)
    ensures
        r == begins_with(s@, prefix@),
{
    let hay = chars_of(s);
    let needle = chars_of(prefix);
    proof {
        if needle@.len() <= hay@.len() {
            assert(hay@.take(needle@.len() as int) =~= hay@.subrange(0, needle@.len() as int));
        }
    }
    matches_at(&hay, &needle, 0)
}

/// Whether `needle` stands somewhere in `s`.
pub fn contains(s: &str, needle: &str) -> (r: bool)
    ensures
        r == holds_text(s@, needle@),
{
    let hay = chars_of(s);
    let pin = chars_of(needle);
    let mut at: usize = 0;
    while at < hay.len()
        invariant
            hay@ == s@,
            pin@ == needle@,
            at <= hay@.len(),
            forall|k: int| 0 <= k < at ==> !stands_at(hay@, pin@, k),
        decreases hay@.len() - at,
    {
        if matches_at(&hay, &pin, at) {
            return true;
        }
        at = at + 1;
    }
    matches_at(&hay, &pin, at)
}

/// The pieces of `s` between occurrences of `sep`, empty pieces kept.
pub open spec fn pieces(s: Seq<char>, sep: char) -> Seq<Seq<char>>
    decreases s.len(),
{
    if s.len() == 0 {
        seq![Seq::empty()]
    } else {
        let before = pieces(s.drop_last(), sep);
        if s.last() == sep {
            before.push(Seq::empty())
        } else {
            before.drop_last().push(before.last().push(s.last()))
        }
    }
}

/// `parts` written one after the other with `sep` between them.
pub open spec fn joined(parts: Seq<Seq<char>>, sep: Seq<char>) -> Seq<char>
    decreases parts.len(),
{
    if parts.len() == 0 {
        Seq::empty()
    } else if parts.len() == 1 {
        parts[0]
    } else {
        joined(parts.drop_last(), sep) + sep + parts.last()
    }
}

/// There is always at least one piece.
pub proof fn lemma_pieces_nonempty(s: Seq<char>, sep: char)
    ensures
        pieces(s, sep).len() > 0,
    decreases s.len(),
{
    if s.len() > 0 {
        lemma_pieces_nonempty(s.drop_last(), sep);
    }
}

/// Splits `s` at every `sep`; empty pieces are kept.
pub fn split(s: &str, sep: char) -> (r: Vec<String>)
    ensures
        texts(r@) == pieces(s@, sep),
{
    let chars = chars_of(s);
    let mut done: Vec<String> = Vec::new();
    let mut last = String::new();
    let mut i: usize = 0;
    proof {
        assert(chars@.take(0) =~= Seq::<char>::empty());
        assert(texts(done@).push(last@) =~= pieces(chars@.take(0), sep));
    }
    while i < chars.len()
        invariant
            chars@ == s@,
            i <= chars@.len(),
            texts(done@).push(last@) == pieces(chars@.take(i as int), sep),
        decreases chars@.len() - i,
    {
        let c = chars[i];
        let ghost before = texts(done@).push(last@);
        proof {
            assert(chars@.take(i + 1).drop_last() =~= chars@.take(i as int));
            assert(chars@.take(i + 1).last() == c);
            assert(before.last() == last@);
            assert(before.drop_last() =~= texts(done@));
        }
        if c == sep {
            done.push(last);
            last = String::new();
            proof {
                assert(texts(done@) =~= before);
            }
        } else {
            last.push(c);
        }
        i = i + 1;
    }
    done.push(last);
    proof {
        assert(chars@.take(chars@.len() as int) =~= s@);
        assert(texts(done@) =~= pieces(s@, sep));
    }
    done
}

/// Writes `parts` one after the other with `sep` between them.
pub fn join(parts: &Vec<String>, sep: &str) -> (r: String)
    ensures
        r@ == joined(texts(parts@), sep@),
{
    let mut out = String::new();
    let mut i: usize = 0;
    let ghost all = texts(parts@);
    proof {
        assert(all.take(0) =~= Seq::<Seq<char>>::empty());
    }
    while i < parts.len()
        invariant
            all == texts(parts@),
            i <= parts@.len(),
            out@ == joined(all.take(i as int), sep@),
        decreases parts@.len() - i,
    {
        proof {
            assert(all.take(i + 1).drop_last() =~= all.take(i as int));
            assert(all.take(i + 1).last() == parts@[i as int]@);
        }
        if i > 0 {
            out.append(sep);
        }
        out.append(parts[i].as_str());
        proof {
            if i == 0 {
                assert(out@ =~= parts@[0]@);
            }
        }
        i = i + 1;
    }
    proof {
        assert(all.take(all.len() as int) =~= all);
    }
    out
}

/// The text `a` followed by `b`.
pub fn cat2(a: &str, b: &str) -> (r: String)
    ensures
        r@ == a@ + b@,
{
    let mut out = String::new();
    out.append(a);
    out.append(b);
    proof {
        assert(out@ =~= a@ + b@);
    }
    out
}

/// The texts `a`, `b` and `c` in a row.
pub fn cat3(a: &str, b: &str, c: &str) -> (r: String)
    ensures
        r@ == a@ + b@ + c@,
{
    let mut out = cat2(a, b);
    out.append(c);
    out
}

/// The texts `a`, `b`, `c` and `d` in a row.
pub fn cat4(a: &str, b: &str, c: &str, d: &str) -> (r: String)
    ensures
        r@ == a@ + b@ + c@ + d@,
{
    let mut out = cat3(a, b, c);
    out.append(d);
    out
}

/// The texts `a`, `b`, `c`, `d` and `e` in a row.
pub fn cat5(a: &str, b: &str, c: &str, d: &str, e: &str) -> (r: String)
    ensures
        r@ == a@ + b@ + c@ + d@ + e@,
{
    let mut out = cat4(a, b, c, d);
    out.append(e);
    out
}

/// Splitting at a separator and joining with it again gives the text back.
pub proof fn law_split_join(s: Seq<char>, sep: char)
    ensures
        joined(pieces(s, sep), seq![sep]) == s,
    decreases s.len(),
{
    if s.len() == 0 {
        assert(pieces(s, sep)[0] =~= s);
    } else {
        let h = s.drop_last();
        let before = pieces(h, sep);
        law_split_join(h, sep);
        lemma_pieces_nonempty(h, sep);
        if s.last() == sep {
            assert(before.push(Seq::empty()).drop_last() =~= before);
            assert(h + seq![sep] + Seq::<char>::empty() =~= s);
        } else {
            let grown = before.drop_last().push(before.last().push(s.last()));
            assert(grown.drop_last() =~= before.drop_last());
            if before.len() == 1 {
                assert(grown[0] =~= h.push(s.last()));
                assert(s =~= h.push(s.last()));
            } else {
                let head = joined(before.drop_last(), seq![sep]) + seq![sep];
                assert(head + before.last().push(s.last()) =~= (head + before.last()).push(s.last()));
                assert(s =~= h.push(s.last()));
            }
        }
    }
}

/// A text without the separator goes onto the last piece.
proof fn lemma_pieces_grow(head: Seq<char>, tail: Seq<char>, sep: char)
    requires
        !tail.contains(sep),
    ensures
        pieces(head + tail, sep) == pieces(head, sep).drop_last().push(
            pieces(head, sep).last() + tail,
        ),
    decreases tail.len(),
{
    lemma_pieces_nonempty(head, sep);
    let before = pieces(head, sep);
    if tail.len() == 0 {
        assert(head + tail =~= head);
        assert(before.last() + tail =~= before.last());
        assert(before.drop_last().push(before.last()) =~= before);
    } else {
        let rest = tail.drop_last();
        assert(!rest.contains(sep)) by {
            if rest.contains(sep) {
                let i = choose|i: int| 0 <= i < rest.len() && rest[i] == sep;
                assert(tail[i] == sep);
            }
        }
        assert(tail[tail.len() - 1] != sep);
        lemma_pieces_grow(head, rest, sep);
        assert((head + tail).drop_last() =~= head + rest);
        let grown = before.drop_last().push(before.last() + rest);
        assert(grown.drop_last() =~= before.drop_last());
        assert((before.last() + rest).push(tail.last()) =~= before.last() + tail);
    }
}

/// Joining with a separator that no part holds and splitting at it again gives
/// the parts back.
pub proof fn law_join_split(parts: Seq<Seq<char>>, sep: char)
    requires
        parts.len() > 0,
        forall|i: int| 0 <= i < parts.len() ==> !(#[trigger] parts[i]).contains(sep),
    ensures
        pieces(joined(parts, seq![sep]), sep) == parts,
    decreases parts.len(),
{
    let none = Seq::<char>::empty();
    if parts.len() == 1 {
        lemma_pieces_grow(none, parts[0], sep);
        assert(none + parts[0] =~= parts[0]);
        assert(pieces(none, sep) == seq![none]);
        assert(pieces(parts[0], sep) =~= parts);
    } else {
        let head = parts.drop_last();
        law_join_split(head, sep);
        let h = joined(head, seq![sep]) + seq![sep];
        assert(h.drop_last() =~= joined(head, seq![sep]));
        assert(pieces(h, sep) == head.push(none));
        lemma_pieces_grow(h, parts.last(), sep);
        assert(head.push(none).drop_last() =~= head);
        assert(none + parts.last() =~= parts.last());
        assert(head.push(parts.last()) =~= parts);
    }
}

/// Characters with the same code are the same.
proof fn lemma_char_code(p: char, q: char)
    ensures
        p as u32 == q as u32 ==> p == q,
{
    vstd::utf8::char_u32_cast(p, p as u32);
    vstd::utf8::char_u32_cast(q, q as u32);
}

/// A text compares equal to itself alone.
pub proof fn lemma_text_order_equal(a: Seq<char>, b: Seq<char>)
    ensures
        text_order(a, b) == Order::Equal <==> a == b,
    decreases a.len(),
{
    if a.len() > 0 && b.len() > 0 {
        lemma_text_order_equal(a.drop_first(), b.drop_first());
        if a[0] == b[0] && a.drop_first() == b.drop_first() {
            assert(a =~= seq![a[0]] + a.drop_first());
            assert(b =~= seq![b[0]] + b.drop_first());
        }
    } else {
        assert(a.len() == 0 && b.len() == 0 ==> a =~= b);
    }
}

/// Comparing the other way round flips the outcome.
pub proof fn lemma_text_order_flip(a: Seq<char>, b: Seq<char>)
    ensures
        text_order(b, a) == text_order(a, b).flip(),
    decreases a.len(),
{
    if a.len() > 0 && b.len() > 0 {
        lemma_char_code(a[0], b[0]);
        lemma_text_order_flip(a.drop_first(), b.drop_first());
    }
}

/// Code-point order is transitive.
pub proof fn lemma_text_order_transitive(a: Seq<char>, b: Seq<char>, c: Seq<char>)
    requires
        text_order(a, b) == Order::Less,
        text_order(b, c) == Order::Less,
    ensures
        text_order(a, c) == Order::Less,
    decreases a.len(),
{
    if a.len() > 0 && b.len() > 0 && c.len() > 0 {
        if a[0] == b[0] && b[0] == c[0] {
            lemma_text_order_transitive(a.drop_first(), b.drop_first(), c.drop_first());
        }
    }
}

/// Where neither step goes down, the whole way does not.
pub proof fn lemma_text_order_chain(a: Seq<char>, b: Seq<char>, c: Seq<char>)
    requires
        text_order(a, b) != Order::Greater,
        text_order(b, c) != Order::Greater,
    ensures
        text_order(a, c) != Order::Greater,
{
    lemma_text_order_equal(a, b);
    lemma_text_order_equal(b, c);
    if text_order(a, b) == Order::Less && text_order(b, c) == Order::Less {
        lemma_text_order_transitive(a, b, c);
    }
}

/// The decimal digit `d` as a character.
pub open spec fn digit(d: nat) -> char {
    (48 + d) as char
}

/// `n` in decimal digits, without leading zeros.
pub open spec fn decimal(n: nat) -> Seq<char>
    decreases n,
{
    if n < 10 {
        seq![digit(n)]
    } else {
        decimal(n / 10).push(digit(n % 10))
    }
}

/// Writes `n` in decimal.
pub fn decimal_text(n: u64) -> (r: String)
    ensures
        r@ == decimal(n as nat),
    decreases n,
{
    let low: char = (48u8 + (n % 10) as u8) as char;
    if n < 10 {
        let mut out = String::new();
        out.push(low);
        proof {
            assert(out@ =~= seq![digit(n as nat)]);
        }
        out
    } else {
        let mut out = decimal_text(n / 10);
        out.push(low);
        out
    }
}

/// An ASCII capital letter made small; every other character as it is.
pub open spec fn lower_char(c: char) -> char {
    if 'A' <= c && c <= 'Z' {
        (c as u32 + 32) as char
    } else {
        c
    }
}

/// Every ASCII capital letter made small.
pub open spec fn lowered(s: Seq<char>) -> Seq<char> {
    s.map_values(|c: char| lower_char(c))
}

/// Makes every ASCII capital letter small.
pub fn lowercase(s: &str) -> (r: String)
    ensures
        r@ == lowered(s@),
{
    let chars = chars_of(s);
    let mut out = String::new();
    let mut i: usize = 0;
    while i < chars.len()
        invariant
            chars@ == s@,
            i <= chars@.len(),
            out@ == lowered(s@.take(i as int)),
        decreases chars@.len() - i,
    {
        let c = chars[i];
        let d: char = if 'A' <= c && c <= 'Z' {
            ((c as u8) + 32u8) as char
        } else {
            c
        };
        out.push(d);
        proof {
            assert(s@.take(i + 1) =~= s@.take(i as int).push(c));
            assert(d == lower_char(c));
            assert(out@ =~= lowered(s@.take(i + 1)));
        }
        i = i + 1;
    }
    proof {
        assert(s@.take(s@.len() as int) =~= s@);
    }
    out
}

/// A character of the Unicode property `White_Space`.
pub open spec fn white_space(c: char) -> bool {
    let u = c as u32;
    ||| 0x09 <= u <= 0x0d
    ||| u == 0x20
    ||| u == 0x85
    ||| u == 0xa0
    ||| u == 0x1680
    ||| 0x2000 <= u <= 0x200a
    ||| u == 0x2028
    ||| u == 0x2029
    ||| u == 0x202f
    ||| u == 0x205f
    ||| u == 0x3000
}

/// Whether `c` has the Unicode property `White_Space`.
pub fn is_white_space(c: char) -> (r: bool)
    ensures
        r == white_space(c),
{
    let u: u32 = c as u32;
    (0x09 <= u && u <= 0x0d) || u == 0x20 || u == 0x85 || u == 0xa0 || u == 0x1680 || (0x2000 <= u
        && u <= 0x200a) || u == 0x2028 || u == 0x2029 || u == 0x202f || u == 0x205f || u == 0x3000
}

/// `s` without the white space before its first and after its last other
/// character.
pub open spec fn trimmed(s: Seq<char>) -> Seq<char>
    decreases s.len(),
{
    if s.len() == 0 {
        s
    } else if white_space(s[0]) {
        trimmed(s.drop_first())
    } else if white_space(s.last()) {
        trimmed(s.drop_last())
    } else {
        s
    }
}

/// Drops the white space around a text.
pub fn trim(s: &str) -> (r: String)
    ensures
        r@ == trimmed(s@),
{
    let chars = chars_of(s);
    let mut from: usize = 0;
    let mut to: usize = chars.len();
    proof {
        assert(chars@.subrange(0, chars@.len() as int) =~= s@);
    }
    while from < to && is_white_space(chars[from])
        invariant
            chars@ == s@,
            from <= to,
            to == chars@.len(),
            trimmed(s@) == trimmed(chars@.subrange(from as int, to as int)),
        decreases to - from,
    {
        proof {
            let part = chars@.subrange(from as int, to as int);
            assert(part.drop_first() =~= chars@.subrange(from + 1, to as int));
        }
        from = from + 1;
    }
    while from < to && is_white_space(chars[to - 1])
        invariant
            chars@ == s@,
            from <= to,
            to <= chars@.len(),
            from < chars@.len() ==> !white_space(chars@[from as int]),
            trimmed(s@) == trimmed(chars@.subrange(from as int, to as int)),
        decreases to - from,
    {
        proof {
            let part = chars@.subrange(from as int, to as int);
            assert(part.drop_last() =~= chars@.subrange(from as int, to - 1));
        }
        to = to - 1;
    }
    let mut out = String::new();
    let mut i: usize = from;
    while i < to
        invariant
            from <= i <= to,
            to <= chars@.len(),
            out@ == chars@.subrange(from as int, i as int),
        decreases to - i,
    {
        out.push(chars[i]);
        proof {
            assert(chars@.subrange(from as int, i + 1) =~= chars@.subrange(
                from as int,
                i as int,
            ).push(chars@[i as int]));
        }
        i = i + 1;
    }
    out
}

/// What the debug form of a text is: the text in quotes, escaped.
pub uninterp spec fn debug_quoted(s: Seq<char>) -> Seq<char>;

/// `<str as std::fmt::Debug>::fmt` through `format`: the text in quotes with
/// its escapes. The result is named `debug_quoted`.
#[verifier::external_body]
pub(crate) fn debug_text(s: &str) -> (r: String)
    ensures
        r@ == debug_quoted(s@),
{
    format!("{:?}", s)
}

/// What the debug form of a character is: the character in quotes, escaped.
pub uninterp spec fn quoted_char(c: char) -> Seq<char>;

/// `<char as std::fmt::Debug>::fmt` through `format`: the character in quotes
/// with its escape. The result is named `quoted_char`.
#[verifier::external_body]
pub(crate) fn debug_char(c: char) -> (r: String)
    ensures
        r@ == quoted_char(c),
{
    format!("{:?}", c)
}

/// The value of decimal digits, most significant first; `None` where some
/// character is no digit.
pub open spec fn digits_value(s: Seq<char>) -> Option<int>
    decreases s.len(),
{
    if s.len() == 0 {
        Some(0)
    } else {
        match digits_value(s.drop_last()) {
            Some(high) => if '0' <= s.last() && s.last() <= '9' {
                Some(high * 10 + (s.last() as int - '0' as int))
            } else {
                None
            },
            None => None,
        }
    }
}

/// The integer a text spells: decimal digits with an optional sign, within
/// the signed 64-bit range.
pub open spec fn integer_in(s: Seq<char>) -> Option<i64> {
    let signed = s.len() > 0 && (s[0] == '-' || s[0] == '+');
    let digits = if signed {
        s.drop_first()
    } else {
        s
    };
    if digits.len() == 0 {
        None
    } else {
        match digits_value(digits) {
            Some(n) => {
                let value = if signed && s[0] == '-' {
                    -n
                } else {
                    n
                };
                if i64::MIN <= value <= i64::MAX {
                    Some(value as i64)
                } else {
                    None
                }
            },
            None => None,
        }
    }
}

/// A text of digits has no negative value, and a longer one is no smaller;
/// one with another character in it has no value.
proof fn lemma_digits_prefix(s: Seq<char>, n: int)
    requires
        0 <= n <= s.len(),
    ensures
        digits_value(s.take(n)) is None ==> digits_value(s) is None,
        digits_value(s) is Some ==> 0 <= digits_value(s.take(n))->0 <= digits_value(s)->0,
    decreases s.len() - n,
{
    if n < s.len() {
        lemma_digits_prefix(s, n + 1);
        assert(s.take(n + 1).drop_last() =~= s.take(n));
        lemma_digits_nonnegative(s.take(n));
    } else {
        assert(s.take(n) =~= s);
        lemma_digits_nonnegative(s);
    }
}

proof fn lemma_digits_nonnegative(s: Seq<char>)
    ensures
        digits_value(s) matches Some(v) ==> 0 <= v,
    decreases s.len(),
{
    if s.len() > 0 {
        lemma_digits_nonnegative(s.drop_last());
    }
}

/// Reads a signed 64-bit integer in decimal.
pub fn read_integer(s: &str) -> (r: Option<i64>)
    ensures
        r == integer_in(s@),
{
    let chars = chars_of(s);
    let negative = chars.len() > 0 && chars[0] == '-';
    let signed = negative || (chars.len() > 0 && chars[0] == '+');
    let start: usize = if signed {
        1
    } else {
        0
    };
    if chars.len() == start {
        return None;
    }
    let ghost digits = if signed {
        s@.drop_first()
    } else {
        s@
    };
    let mut value: u64 = 0;
    let mut i: usize = start;
    proof {
        assert(digits.take(0) =~= Seq::<char>::empty());
    }
    while i < chars.len()
        invariant
            chars@ == s@,
            start <= 1,
            start <= i <= chars@.len(),
            digits == s@.skip(start as int),
            value <= 0x8000_0000_0000_0000,
            digits_value(digits.take(i - start)) == Some(value as int),
            digits.len() == chars@.len() - start,
            signed == (s@.len() > 0 && (s@[0] == '-' || s@[0] == '+')),
            digits == (if signed { s@.drop_first() } else { s@ }),
            digits.len() > 0,
        decreases chars@.len() - i,
    {
        let c = chars[i];
        proof {
            assert(digits[i - start] == c);
            assert(digits.take(i - start + 1).drop_last() =~= digits.take(i - start));
            lemma_digits_prefix(digits, i - start + 1);
        }
        if !('0' <= c && c <= '9') {
            return None;
        }
        let d: u64 = (c as u64) - 48;
        if value > 922_337_203_685_477_580 || (value == 922_337_203_685_477_580 && d > 8) {
            return None;
        }
        value = value * 10 + d;
        i = i + 1;
    }
    proof {
        assert(digits.take(digits.len() as int) =~= digits);
    }
    if negative {
        if value == 0x8000_0000_0000_0000 {
            return Some(i64::MIN);
        }
        Some(0 - (value as i64))
    } else if value == 0x8000_0000_0000_0000 {
        None
    } else {
        Some(value as i64)
    }
}

} // verus!
