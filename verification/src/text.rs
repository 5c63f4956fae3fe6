//! Operations on text, stated over sequences of characters.
use vstd::hash_set::StringHashSet;
use vstd::prelude::*;

verus! {

/// A control character: one of Unicode's general category for control codes.
pub open spec fn control(c: char) -> bool {
    c as u32 <= 0x1f || (0x7f <= c as u32 && c as u32 <= 0x9f)
}

/// Whether a character is a control character.
pub fn is_control(c: char) -> (r: bool)
    ensures
        r == control(c),
{
    let code: u32 = c as u32;
    code <= 0x1f || (0x7f <= code && code <= 0x9f)
}

/// The texts that a list of strings holds.
pub open spec fn texts(list: Seq<String>) -> Seq<Seq<char>> {
    list.map_values(|s: String| s@)
}

/// `needle` stands in `hay` at position `i`.
pub open spec fn occurs_at(hay: Seq<char>, needle: Seq<char>, i: int) -> bool {
    &&& 0 <= i
    &&& i + needle.len() <= hay.len()
    &&& hay.subrange(i, i + needle.len()) == needle
}

/// The first position at or behind `from` at which `needle` stands in `hay`.
pub open spec fn find_from(hay: Seq<char>, needle: Seq<char>, from: int) -> Option<int>
    decreases hay.len() + 1 - from,
{
    if from < 0 || from + needle.len() > hay.len() {
        None
    } else if occurs_at(hay, needle, from) {
        Some(from)
    } else {
        find_from(hay, needle, from + 1)
    }
}

/// `part` is a contiguous piece of `whole`.
pub open spec fn is_part_of(part: Seq<char>, whole: Seq<char>) -> bool {
    exists|i: int| occurs_at(whole, part, i)
}

/// `hay` with the first occurrence of `from` replaced by `to`.
pub open spec fn replaced_first(hay: Seq<char>, from: Seq<char>, to: Seq<char>) -> Seq<char> {
    match find_from(hay, from, 0) {
        Some(i) => hay.take(i) + to + hay.skip(i + from.len()),
        None => hay,
    }
}

/// The decimal digit of `d`, which is below ten.
pub open spec fn digit(d: nat) -> char {
    (48 + d) as char
}

/// `n` in decimal, without leading zeros.
pub open spec fn decimal(n: nat) -> Seq<char>
    decreases n,
{
    if n < 10 {
        seq![digit(n)]
    } else {
        decimal(n / 10).push(digit(n % 10))
    }
}

/// `i` in decimal, with a minus sign where it is negative.
pub open spec fn signed_decimal(i: int) -> Seq<char> {
    if i < 0 {
        seq!['-'] + decimal((-i) as nat)
    } else {
        decimal(i as nat)
    }
}

/// A decimal digit.
pub open spec fn is_digit(c: char) -> bool {
    '0' <= c && c <= '9'
}

/// The number that decimal digits write.
pub open spec fn digits_value(s: Seq<char>) -> nat
    decreases s.len(),
{
    if s.len() == 0 {
        0
    } else {
        digits_value(s.drop_last()) * 10 + (s.last() as nat - 48) as nat
    }
}

/// The text behind its plus sign; all of it where it begins with none.
pub open spec fn without_plus(s: Seq<char>) -> Seq<char> {
    if s.len() > 0 && s[0] == '+' {
        s.skip(1)
    } else {
        s
    }
}

/// One or more decimal digits.
pub open spec fn are_digits(s: Seq<char>) -> bool {
    s.len() > 0 && (forall|i: int| 0 <= i < s.len() ==> is_digit(#[trigger] s[i]))
}

/// The number that a text writes: one or more decimal digits, behind a plus sign or none.
pub open spec fn number(s: Seq<char>) -> Option<nat> {
    if are_digits(without_plus(s)) {
        Some(digits_value(without_plus(s)))
    } else {
        None
    }
}

/// `String::push` of std: the character is appended.
pub assume_specification[ String::push ](s: &mut String, c: char)
    ensures
        final(s)@ == old(s)@.push(c),
;

/// The characters of a text.
pub fn chars_of(s: &str) -> (r: Vec<char>)
    ensures
        r@ == s@,
{
    let mut out: Vec<char> = Vec::new();
    for c in it: s.chars()
        invariant
            out@ == s@.take(it.index()),
            it.seq() == s@,
    {
        out.push(c);
    }
    out
}

/// The text of the characters from `from` up to `to`.
pub fn text_of(v: &Vec<char>, from: usize, to: usize) -> (r: String)
    requires
        from <= to <= v@.len(),
    ensures
        r@ == v@.subrange(from as int, to as int),
{
    let mut out = String::new();
    let mut i: usize = from;
    while i < to
        invariant
            from <= i <= to <= v@.len(),
            out@ == v@.subrange(from as int, i as int),
        decreases to - i,
    {
        out.push(v[i]);
        i += 1;
    }
    out
}

/// The two texts, one behind the other.
pub fn joined(a: &str, b: &str) -> (r: String)
    ensures
        r@ == a@ + b@,
{
    let mut out = a.to_owned();
    out.append(b);
    out
}

/// `n` in decimal.
pub fn decimal_text(n: u64) -> (r: String)
    ensures
        r@ == decimal(n as nat),
    decreases n,
{
    let last: u8 = (n % 10) as u8;
    let c: char = (48 + last) as char;
    let mut out = if n < 10 {
        String::new()
    } else {
        decimal_text(n / 10)
    };
    out.push(c);
    assert(n < 10 ==> out@ =~= seq![digit(n as nat)]);
    out
}

/// `i` in decimal, with its sign.
pub fn signed_decimal_text(i: i64) -> (r: String)
    ensures
        r@ == signed_decimal(i as int),
{
    if i < 0 {
        let magnitude: u64 = (-(i as i128)) as u64;
        let digits = decimal_text(magnitude);
        proof {
            reveal_strlit("-");
        }
        assert("-"@ =~= seq!['-']);
        joined("-", digits.as_str())
    } else {
        decimal_text(i as u64)
    }
}

/// Whether `s` begins with `prefix`.
pub fn begins_with(s: &str, prefix: &str) -> (r: bool)
    ensures
        r == prefix@.is_prefix_of(s@),
{
    let mut whole = s.chars();
    let mut part = prefix.chars();
    let ghost mut k: int = 0;
    loop
        invariant
            0 <= k <= prefix@.len(),
            k <= s@.len(),
            vstd::std_specs::iter::IteratorSpec::remaining(&whole) == s@.skip(k),
            vstd::std_specs::iter::IteratorSpec::remaining(&part) == prefix@.skip(k),
            s@.take(k) == prefix@.take(k),
        decreases prefix@.len() - k,
    {
        match part.next() {
            None => {
                assert(prefix@.take(k) =~= prefix@);
                return true;
            },
            Some(c) => match whole.next() {
                None => {
                    return false;
                },
                Some(d) => {
                    if c != d {
                        assert(s@[k] != prefix@[k]);
                        return false;
                    }
                    proof {
                        assert(s@.take(k + 1) =~= s@.take(k).push(d));
                        assert(prefix@.take(k + 1) =~= prefix@.take(k).push(c));
                        k = k + 1;
                    }
                },
            },
        }
    }
}

/// The pieces of `s` between the occurrences of `sep`, read from the left.
pub open spec fn pieces(s: Seq<char>, sep: Seq<char>) -> Seq<Seq<char>>
    decreases s.len(),
{
    match find_from(s, sep, 0) {
        Some(i) => if sep.len() == 0 || i < 0 || i + sep.len() > s.len() {
            seq![s]
        } else {
            seq![s.take(i)] + pieces(s.skip(i + sep.len()), sep)
        },
        None => seq![s],
    }
}

/// The parts in order, with `sep` between each two neighbours.
pub open spec fn interleaved(parts: Seq<Seq<char>>, sep: Seq<char>) -> Seq<char>
    decreases parts.len(),
{
    if parts.len() == 0 {
        Seq::empty()
    } else if parts.len() == 1 {
        parts[0]
    } else {
        interleaved(parts.drop_last(), sep) + sep + parts.last()
    }
}

/// What stands behind the last `c` of `s`; all of `s` where it holds no `c`.
pub open spec fn after_last(s: Seq<char>, c: char) -> Seq<char>
    decreases s.len(),
{
    if s.len() == 0 || s.last() == c {
        Seq::empty()
    } else {
        after_last(s.drop_last(), c).push(s.last())
    }
}

/// What `find_from` finds is an occurrence, and no earlier one was passed over.
pub proof fn lemma_find_from(hay: Seq<char>, needle: Seq<char>, from: int)
    requires
        0 <= from,
    ensures
        match find_from(hay, needle, from) {
            Some(i) => from <= i && occurs_at(hay, needle, i) && (forall|j: int|
                from <= j < i ==> !occurs_at(hay, needle, j)),
            None => forall|j: int| from <= j ==> !occurs_at(hay, needle, j),
        },
    decreases hay.len() + 1 - from,
{
    if from + needle.len() > hay.len() {
    } else if occurs_at(hay, needle, from) {
    } else {
        lemma_find_from(hay, needle, from + 1);
    }
}

/// Behind a part that does not hold a character, the first occurrence of it is the next one.
pub proof fn lemma_find_separator(head: Seq<char>, c: char, tail: Seq<char>)
    requires
        !head.contains(c),
    ensures
        find_from(head + seq![c] + tail, seq![c], 0) == Some(head.len() as int),
        (head + seq![c] + tail).take(head.len() as int) == head,
        (head + seq![c] + tail).skip(head.len() as int + 1) == tail,
{
    let whole = head + seq![c] + tail;
    let n = head.len() as int;
    lemma_find_from(whole, seq![c], 0);
    assert(occurs_at(whole, seq![c], n)) by {
        assert(whole.subrange(n, n + 1) =~= seq![c]);
    }
    assert forall|j: int| 0 <= j < n implies !occurs_at(whole, seq![c], j) by {
        if occurs_at(whole, seq![c], j) {
            assert(whole.subrange(j, j + 1)[0] == c);
            assert(head[j] == c);
        }
    }
    assert(whole.take(n) =~= head);
    assert(whole.skip(n + 1) =~= tail);
}

/// Whether `needle` stands in `hay` at position `i`.
fn stands_at(hay: &Vec<char>, needle: &Vec<char>, i: usize) -> (r: bool)
    requires
        i + needle@.len() <= hay@.len(),
    ensures
        r == occurs_at(hay@, needle@, i as int),
{
    let n = needle.len();
    let total = hay.len();
    let mut k: usize = 0;
    while k < n
        invariant
            n == needle@.len(),
            total == hay@.len(),
            k <= n,
            i + n <= hay@.len(),
            forall|j: int| 0 <= j < k ==> hay@[i + j] == needle@[j],
        decreases n - k,
    {
        if hay[i + k] != needle[k] {
            assert(hay@.subrange(i as int, i + n)[k as int] != needle@[k as int]);
            return false;
        }
        k += 1;
    }
    assert(hay@.subrange(i as int, i + n) =~= needle@);
    true
}

/// The first position at or behind `from` at which `needle` stands in `hay`.
pub fn find(hay: &Vec<char>, needle: &Vec<char>, from: usize) -> (r: Option<usize>)
    requires
        from <= hay@.len(),
    ensures
        match r {
            Some(i) => find_from(hay@, needle@, from as int) == Some(i as int),
            None => find_from(hay@, needle@, from as int) is None,
        },
        r matches Some(i) ==> i + needle@.len() <= hay@.len(),
{
    let mut i: usize = from;
    loop
        invariant
            from <= i <= hay@.len(),
            find_from(hay@, needle@, from as int) == find_from(hay@, needle@, i as int),
        decreases hay@.len() - i,
    {
        if needle.len() > hay.len() - i {
            return None;
        }
        if stands_at(hay, needle, i) {
            return Some(i);
        }
        if i == hay.len() {
            assert(hay@.subrange(i as int, i as int) =~= needle@);
            return None;
        }
        i += 1;
    }
}

/// Whether `needle` stands anywhere in `hay`.
pub fn holds(hay: &str, needle: &str) -> (r: bool)
    ensures
        r == is_part_of(needle@, hay@),
{
    let h = chars_of(hay);
    let n = chars_of(needle);
    proof {
        lemma_find_from(hay@, needle@, 0);
    }
    find(&h, &n, 0).is_some()
}

/// `s` with the first occurrence of `from` replaced by `to`.
pub fn replace_first(s: &str, from: &str, to: &str) -> (r: String)
    ensures
        r@ == replaced_first(s@, from@, to@),
{
    let h = chars_of(s);
    let n = chars_of(from);
    let total = h.len();
    match find(&h, &n, 0) {
        Some(i) => {
            let head = text_of(&h, 0, i);
            let tail = text_of(&h, i + n.len(), total);
            let front = joined(head.as_str(), to);
            joined(front.as_str(), tail.as_str())
        },
        None => s.to_owned(),
    }
}

/// The pieces of `s` between the occurrences of `sep`, which is not empty.
pub fn split_text(s: &str, sep: &str) -> (r: Vec<String>)
    requires
        sep@.len() > 0,
    ensures
        texts(r@) == pieces(s@, sep@),
        r@.len() > 0,
{
    let h = chars_of(s);
    let n = chars_of(sep);
    let total = h.len();
    let mut out: Vec<String> = Vec::new();
    let mut start: usize = 0;
    assert(h@.skip(0) =~= h@);
    assert(texts(out@) + pieces(h@, n@) =~= pieces(h@, n@));
    loop
        invariant
            h@ == s@,
            n@ == sep@,
            n@.len() > 0,
            total == h@.len(),
            start <= h@.len(),
            texts(out@) + pieces(h@.skip(start as int), n@) == pieces(h@, n@),
        decreases h@.len() - start,
    {
        let ghost rest = h@.skip(start as int);
        proof {
            lemma_find_shift(h@, n@, start as int, start as int);
            lemma_find_from(rest, n@, 0);
        }
        match find(&h, &n, start) {
            Some(i) => {
                let piece = text_of(&h, start, i);
                let ghost before = texts(out@);
                out.push(piece);
                proof {
                    assert(texts(out@) =~= before.push(piece@));
                    assert(piece@ =~= rest.take(i - start));
                    assert(rest.skip(i - start + n@.len()) =~= h@.skip(i + n@.len()));
                    assert(before + (seq![piece@] + pieces(h@.skip(i + n@.len()), n@))
                        =~= before.push(piece@) + pieces(h@.skip(i + n@.len()), n@));
                }
                start = i + n.len();
            },
            None => {
                let piece = text_of(&h, start, total);
                let ghost before = texts(out@);
                out.push(piece);
                proof {
                    assert(texts(out@) =~= before.push(piece@));
                    assert(piece@ =~= rest);
                    assert(before + seq![rest] =~= before.push(rest));
                }
                return out;
            },
        }
    }
}

/// To search `hay` from `from` is to search what stands behind `cut`, moved by `cut`.
proof fn lemma_find_shift(hay: Seq<char>, needle: Seq<char>, cut: int, from: int)
    requires
        0 <= cut <= from <= hay.len(),
    ensures
        find_from(hay, needle, from) == match find_from(hay.skip(cut), needle, from - cut) {
            Some(i) => Some(i + cut),
            None => None::<int>,
        },
    decreases hay.len() + 1 - from,
{
    let rest = hay.skip(cut);
    if from + needle.len() > hay.len() {
    } else {
        assert(rest.subrange(from - cut, from - cut + needle.len()) =~= hay.subrange(
            from,
            from + needle.len(),
        ));
        if !occurs_at(hay, needle, from) {
            if from == hay.len() {
                assert(hay.subrange(from, from) =~= needle);
            } else {
                lemma_find_shift(hay, needle, cut, from + 1);
            }
        }
    }
}

/// With a part in front, the parts are joined behind it.
proof fn lemma_interleaved_front(first: Seq<char>, rest: Seq<Seq<char>>, sep: Seq<char>)
    requires
        rest.len() > 0,
    ensures
        interleaved(seq![first] + rest, sep) == first + sep + interleaved(rest, sep),
    decreases rest.len(),
{
    let all = seq![first] + rest;
    assert(all.drop_last() =~= seq![first] + rest.drop_last());
    assert(all.last() == rest.last());
    if rest.len() == 1 {
        assert(all.drop_last() =~= seq![first]);
        assert(interleaved(all.drop_last(), sep) == first);
    } else {
        lemma_interleaved_front(first, rest.drop_last(), sep);
        assert(first + sep + interleaved(rest.drop_last(), sep) + sep + rest.last() =~= first + sep
            + (interleaved(rest.drop_last(), sep) + sep + rest.last()));
    }
}

/// The pieces of a text, joined with what separates them, are the text.
pub proof fn law_pieces_make_up_the_text(s: Seq<char>, sep: Seq<char>)
    requires
        sep.len() > 0,
    ensures
        pieces(s, sep).len() > 0,
        interleaved(pieces(s, sep), sep) == s,
    decreases s.len(),
{
    lemma_find_from(s, sep, 0);
    if let Some(i) = find_from(s, sep, 0) {
        let rest = s.skip(i + sep.len());
        law_pieces_make_up_the_text(rest, sep);
        lemma_interleaved_front(s.take(i), pieces(rest, sep), sep);
        assert(s.subrange(i, i + sep.len()) == sep);
        assert(s.take(i) + sep + rest =~= s);
    } else {
        assert(pieces(s, sep) =~= seq![s]);
    }
}

/// An occurrence before which there is none is the one that is found.
proof fn lemma_first_occurrence(hay: Seq<char>, needle: Seq<char>, i: int)
    requires
        occurs_at(hay, needle, i),
        forall|j: int| 0 <= j < i ==> !occurs_at(hay, needle, j),
    ensures
        find_from(hay, needle, 0) == Some(i),
{
    lemma_find_from(hay, needle, 0);
}

/// The first pair of a character in a text behind which such a pair was appended, and which does
/// not end in that character, is the first one of the text, or the one that was appended.
proof fn lemma_find_pair(s: Seq<char>, c: char, name: Seq<char>)
    requires
        s.len() == 0 || s.last() != c,
    ensures
        find_from(s + seq![c, c] + name, seq![c, c], 0) == match find_from(s, seq![c, c], 0) {
            Some(i) => Some(i),
            None => Some(s.len() as int),
        },
{
    let sep = seq![c, c];
    let whole = s + sep + name;
    let n = s.len() as int;
    lemma_find_from(s, sep, 0);
    assert forall|j: int| 0 <= j < n && occurs_at(whole, sep, j) implies occurs_at(s, sep, j) by {
        assert(whole.subrange(j, j + 2)[0] == c);
        assert(whole[j] == s[j]);
        assert(j + 2 <= n) by {
            if j + 1 == n {
                assert(s[j] == s.last());
            }
        }
        assert(whole.subrange(j, j + 2) =~= s.subrange(j, j + 2));
    }
    match find_from(s, sep, 0) {
        Some(i) => {
            assert(whole.subrange(i, i + 2) =~= s.subrange(i, i + 2));
            lemma_first_occurrence(whole, sep, i);
        },
        None => {
            assert(whole.subrange(n, n + 2) =~= sep);
            lemma_first_occurrence(whole, sep, n);
        },
    }
}

/// To append two equal characters and a text without such a pair to a text that does not end in
/// that character is to append a piece.
pub proof fn law_appended_piece_is_the_last(s: Seq<char>, c: char, name: Seq<char>)
    requires
        s.len() == 0 || s.last() != c,
        !is_part_of(seq![c, c], name),
    ensures
        pieces(s + seq![c, c] + name, seq![c, c]) == pieces(s, seq![c, c]).push(name),
    decreases s.len(),
{
    let sep = seq![c, c];
    let whole = s + sep + name;
    lemma_find_pair(s, c, name);
    lemma_find_from(s, sep, 0);
    match find_from(s, sep, 0) {
        Some(i) => {
            let rest = s.skip(i + 2);
            assert(s.subrange(i, i + 2)[1] == c);
            assert(s[i + 1] == c);
            assert(i + 2 < s.len());
            law_appended_piece_is_the_last(rest, c, name);
            assert(whole.skip(i + 2) =~= rest + sep + name);
            assert(whole.take(i) =~= s.take(i));
            assert(seq![s.take(i)] + pieces(rest, sep).push(name) =~= (seq![s.take(i)] + pieces(
                rest,
                sep,
            )).push(name));
        },
        None => {
            let n = s.len() as int;
            assert(whole.take(n) =~= s);
            assert(whole.skip(n + 2) =~= name);
            lemma_find_from(name, sep, 0);
            assert(find_from(name, sep, 0) is None);
            assert(pieces(name, sep) =~= seq![name]);
            assert(seq![s] + seq![name] =~= seq![s].push(name));
        },
    }
}

/// The first `count` parts with `sep` between each two neighbours.
pub fn join_first(parts: &Vec<String>, count: usize, sep: &str) -> (r: String)
    requires
        count <= parts@.len(),
    ensures
        r@ == interleaved(texts(parts@).take(count as int), sep@),
{
    let mut out = String::new();
    let mut i: usize = 0;
    while i < count
        invariant
            i <= count <= parts@.len(),
            out@ == interleaved(texts(parts@).take(i as int), sep@),
        decreases count - i,
    {
        proof {
            let next = texts(parts@).take(i + 1);
            assert(next.drop_last() =~= texts(parts@).take(i as int));
            assert(next.last() == parts@[i as int]@);
            assert(out@ + sep@ + parts@[i as int]@ =~= out@ + (sep@ + parts@[i as int]@));
            assert(i == 0 ==> out@ =~= Seq::empty());
        }
        if i > 0 {
            out.append(sep);
        }
        out.append(parts[i].as_str());
        i += 1;
    }
    out
}

/// What stands behind the last `c` of `s`; all of `s` where it holds no `c`.
pub fn tail_after_last(s: &str, c: char) -> (r: String)
    ensures
        r@ == after_last(s@, c),
{
    let v = chars_of(s);
    let mut start: usize = v.len();
    proof {
        lemma_after_last_step(s@, c, s@.len() as int);
    }
    while start > 0 && v[start - 1] != c
        invariant
            v@ == s@,
            start <= s@.len(),
            after_last(s@, c) == after_last(s@.take(start as int), c) + s@.skip(start as int),
        decreases start,
    {
        proof {
            let shorter = s@.take(start as int);
            assert(shorter.drop_last() =~= s@.take(start - 1));
            assert(s@.skip(start - 1) =~= seq![s@[start - 1]] + s@.skip(start as int));
            assert(after_last(shorter.drop_last(), c).push(shorter.last()) + s@.skip(start as int)
                =~= after_last(shorter.drop_last(), c) + s@.skip(start - 1));
        }
        start -= 1;
    }
    let r = text_of(&v, start, v.len());
    assert(r@ =~= s@.skip(start as int));
    assert(after_last(s@.take(start as int), c) =~= Seq::empty()) by {
        if start > 0 {
            assert(s@.take(start as int).last() == c);
        }
    }
    r
}

proof fn lemma_after_last_step(s: Seq<char>, c: char, n: int)
    requires
        n == s.len(),
    ensures
        after_last(s, c) == after_last(s.take(n), c) + s.skip(n),
{
    assert(s.take(n) =~= s);
    assert(after_last(s, c) + s.skip(n) =~= after_last(s, c));
}

/// The number that a text writes, where it fits.
pub fn parse_number(s: &str) -> (r: Option<u64>)
    ensures
        match r {
            Some(n) => number(s@) == Some(n as nat),
            None => number(s@) matches Some(n) ==> n > u64::MAX,
        },
{
    let v = chars_of(s);
    let start: usize = if v.len() > 0 && v[0] == '+' {
        1
    } else {
        0
    };
    let ghost digits = s@.skip(start as int);
    assert(start == 0 ==> digits =~= s@);
    if start == v.len() {
        return None;
    }
    let mut value: u64 = 0;
    let mut too_large = false;
    let mut i: usize = start;
    while i < v.len()
        invariant
            v@ == s@,
            digits == s@.skip(start as int),
            digits == without_plus(s@),
            start <= i <= v@.len(),
            forall|k: int| 0 <= k < i - start ==> is_digit(#[trigger] digits[k]),
            !too_large ==> value == digits_value(digits.take(i - start)),
            too_large ==> digits_value(digits.take(i - start)) > u64::MAX,
        decreases v@.len() - i,
    {
        let c: char = v[i];
        if !('0' <= c && c <= '9') {
            assert(!is_digit(digits[i - start]));
            return None;
        }
        let d: u64 = (c as u64) - 48;
        proof {
            let next = digits.take(i + 1 - start);
            assert(next.drop_last() =~= digits.take(i - start));
            assert(next.last() == c);
        }
        if !too_large {
            if value > (u64::MAX - d) / 10 {
                too_large = true;
            } else {
                value = value * 10 + d;
            }
        }
        i += 1;
    }
    assert(digits.take(v@.len() - start) =~= digits);
    if too_large {
        None
    } else {
        Some(value)
    }
}

/// The texts that a list of strings holds, without order.
pub fn set_of(list: &Vec<String>) -> (r: StringHashSet)
    ensures
        r@ == texts(list@).to_set(),
{
    let mut set = StringHashSet::new();
    let mut i: usize = 0;
    while i < list.len()
        invariant
            i <= list@.len(),
            set@ == texts(list@.take(i as int)).to_set(),
        decreases list@.len() - i,
    {
        proof {
            let before = texts(list@.take(i as int));
            let after = texts(list@.take(i + 1));
            assert(after =~= before.push(list@[i as int]@));
            assert(after.to_set() =~= before.to_set().insert(list@[i as int]@)) by {
                assert forall|x: Seq<char>| after.to_set().contains(x) == before.to_set().insert(
                    list@[i as int]@,
                ).contains(x) by {
                    vstd::seq_lib::lemma_seq_contains_after_push(before, list@[i as int]@, x);
                }
            }
        }
        set.insert(list[i].clone());
        i += 1;
    }
    assert(list@.take(list@.len() as int) =~= list@);
    set
}

/// Whether a text is in a list.
pub fn is_in(list: &Vec<String>, s: &str) -> (r: bool)
    ensures
        r == texts(list@).contains(s@),
{
    let mut i: usize = 0;
    while i < list.len()
        invariant
            i <= list@.len(),
            forall|j: int| 0 <= j < i ==> (#[trigger] texts(list@)[j]) != s@,
        decreases list@.len() - i,
    {
        assert(texts(list@)[i as int] == list@[i as int]@);
        if same_text(list[i].as_str(), s) {
            return true;
        }
        i += 1;
    }
    false
}

/// The texts of a list, each once, in the order in which they first occur.
pub open spec fn distinct_texts(list: Seq<Seq<char>>) -> Seq<Seq<char>>
    decreases list.len(),
{
    if list.len() == 0 {
        Seq::empty()
    } else {
        let before = distinct_texts(list.drop_last());
        if before.contains(list.last()) {
            before
        } else {
            before.push(list.last())
        }
    }
}

/// The texts of a list, each once, in the order in which they first occur.
pub fn distinct(list: &Vec<String>) -> (r: Vec<String>)
    ensures
        texts(r@) == distinct_texts(texts(list@)),
{
    let mut seen = StringHashSet::new();
    let mut out: Vec<String> = Vec::new();
    let mut i: usize = 0;
    assert(texts(list@).take(0) =~= Seq::<Seq<char>>::empty());
    assert(texts(out@) =~= Seq::<Seq<char>>::empty());
    assert(seen@ =~= texts(out@).to_set());
    while i < list.len()
        invariant
            i <= list@.len(),
            seen@ == texts(out@).to_set(),
            texts(out@) == distinct_texts(texts(list@).take(i as int)),
        decreases list@.len() - i,
    {
        let s = &list[i];
        let ghost before = texts(out@);
        assert(texts(list@).take(i + 1).drop_last() =~= texts(list@).take(i as int));
        assert(texts(list@).take(i + 1).last() == s@);
        if !seen.contains(s.as_str()) {
            out.push(s.clone());
            seen.insert(s.clone());
            assert(texts(out@) =~= before.push(s@));
            assert forall|x: Seq<char>| #[trigger] seen@.contains(x) <==> texts(
                out@,
            ).to_set().contains(x) by {
                vstd::seq_lib::lemma_seq_contains_after_push(before, s@, x);
            }
            assert(seen@ =~= texts(out@).to_set());
        }
        i += 1;
    }
    assert(texts(list@).take(list@.len() as int) =~= texts(list@));
    out
}

/// Each text is kept, and none is kept twice.
pub proof fn law_distinct_keeps_each_text_once(list: Seq<Seq<char>>)
    ensures
        distinct_texts(list).no_duplicates(),
        distinct_texts(list).to_set() == list.to_set(),
    decreases list.len(),
{
    if list.len() > 0 {
        let shorter = list.drop_last();
        law_distinct_keeps_each_text_once(shorter);
        let before = distinct_texts(shorter);
        assert(list =~= shorter.push(list.last()));
        assert forall|x: Seq<char>| #[trigger] distinct_texts(list).to_set().contains(x)
            <==> list.to_set().contains(x) by {
            vstd::seq_lib::lemma_seq_contains_after_push(shorter, list.last(), x);
            vstd::seq_lib::lemma_seq_contains_after_push(before, list.last(), x);
            assert(before.to_set().contains(x) <==> shorter.to_set().contains(x));
        }
    }
    assert(distinct_texts(list).to_set() =~= list.to_set());
}

/// Whether two texts are the same.
pub fn same_text(a: &str, b: &str) -> (r: bool)
    ensures
        r == (a@ == b@),
{
    let r = begins_with(a, b) && begins_with(b, a);
    assert(b@.is_prefix_of(a@) && a@.is_prefix_of(b@) ==> a@ =~= b@);
    r
}

/// The characters of `needle` stand in `hay` from position `i` on.
pub open spec fn runs_from(hay: Seq<char>, needle: Seq<char>, i: int) -> bool {
    0 <= i && i + needle.len() <= hay.len() && forall|k: int|
        0 <= k < needle.len() ==> hay[i + k] == #[trigger] needle[k]
}

proof fn lemma_runs_from(hay: Seq<char>, needle: Seq<char>, i: int)
    ensures
        runs_from(hay, needle, i) <==> occurs_at(hay, needle, i),
{
    if occurs_at(hay, needle, i) {
        assert forall|k: int| 0 <= k < needle.len() implies hay[i + k] == #[trigger] needle[k] by {
            assert(hay.subrange(i, i + needle.len())[k] == needle[k]);
        }
    }
    if runs_from(hay, needle, i) {
        assert(hay.subrange(i, i + needle.len()) =~= needle);
    }
}

/// What is found is the first place at which the characters stand, and nothing is found only where
/// they stand nowhere.
pub proof fn law_the_first_place_is_found(hay: Seq<char>, needle: Seq<char>, from: int)
    requires
        0 <= from,
    ensures
        match find_from(hay, needle, from) {
            Some(i) => from <= i && runs_from(hay, needle, i) && forall|j: int|
                from <= j < i ==> !#[trigger] runs_from(hay, needle, j),
            None => forall|j: int| from <= j ==> !#[trigger] runs_from(hay, needle, j),
        },
{
    lemma_find_from(hay, needle, from);
    assert forall|j: int| #[trigger] runs_from(hay, needle, j) <==> occurs_at(hay, needle, j) by {
        lemma_runs_from(hay, needle, j);
    }
}

/// A text is a part of another exactly where something can be put before and behind it to make up the
/// other one.
pub proof fn law_parts_are_put_together(before: Seq<char>, part: Seq<char>, behind: Seq<char>)
    ensures
        is_part_of(part, before + part + behind),
        forall|whole: Seq<char>| #[trigger]
            is_part_of(part, whole) ==> exists|i: int|
                #![trigger whole.take(i)]
                0 <= i && whole == whole.take(i) + part + whole.skip(i + part.len()),
{
    let n = before.len() as int;
    assert((before + part + behind).subrange(n, n + part.len()) =~= part);
    assert(occurs_at(before + part + behind, part, n));
    assert forall|whole: Seq<char>| #[trigger] is_part_of(part, whole) implies exists|i: int|
        #![trigger whole.take(i)]
        0 <= i && whole == whole.take(i) + part + whole.skip(i + part.len()) by {
        let i = choose|i: int| occurs_at(whole, part, i);
        assert(whole =~= whole.take(i) + whole.subrange(i, i + part.len()) + whole.skip(
            i + part.len(),
        ));
    }
}

/// Only the first occurrence is replaced, and where there is none nothing is.
pub proof fn law_one_occurrence_is_replaced(
    before: Seq<char>,
    from: Seq<char>,
    behind: Seq<char>,
    to: Seq<char>,
)
    requires
        forall|j: int| 0 <= j < before.len() ==> !runs_from(before + from + behind, from, j),
    ensures
        replaced_first(before + from + behind, from, to) == before + to + behind,
        forall|hay: Seq<char>|
            !is_part_of(from, hay) ==> #[trigger] replaced_first(hay, from, to) == hay,
{
    let hay = before + from + behind;
    let n = before.len() as int;
    assert(runs_from(hay, from, n));
    law_the_first_place_is_found(hay, from, 0);
    assert(hay.take(n) =~= before);
    assert(hay.skip(n + from.len()) =~= behind);
    assert forall|other: Seq<char>| !is_part_of(from, other) implies #[trigger] replaced_first(
        other,
        from,
        to,
    ) == other by {
        lemma_find_from(other, from, 0);
        assert forall|j: int| !occurs_at(other, from, j) by {}
    }
}

/// A number is read digit by digit: a further digit makes ten times as much and that digit more, and a
/// plus sign before a number changes nothing.
pub proof fn law_numbers_are_read_digit_by_digit(s: Seq<char>, c: char)
    ensures
        number(seq![c]) == if '0' <= c && c <= '9' {
            Some((c as int - '0' as int) as nat)
        } else {
            None
        },
        number(s) matches Some(n) ==> number(s.push(c)) == if '0' <= c && c <= '9' {
            Some((10 * n + (c as int - '0' as int)) as nat)
        } else {
            None
        },
        s.len() > 0 && s[0] != '+' ==> number(seq!['+'] + s) == number(s),
        number(Seq::empty()) is None,
        number(seq!['+']) is None,
{
    let one = seq![c];
    assert(one.drop_last() =~= Seq::empty());
    assert(digits_value(one.drop_last()) == 0);
    if c == '+' {
        assert(one.skip(1) =~= Seq::empty());
    } else {
        assert(without_plus(one) == one);
        assert(one[0] == c);
    }
    if number(s) is Some {
        let d = without_plus(s);
        assert(s.len() > 0);
        assert(without_plus(s.push(c)) =~= d.push(c));
        assert(d.push(c).drop_last() =~= d);
        assert forall|i: int| 0 <= i < d.len() implies is_digit(#[trigger] d[i]) by {}
        if is_digit(c) {
            assert forall|i: int| 0 <= i < d.push(c).len() implies is_digit(
                #[trigger] d.push(c)[i],
            ) by {
                if i < d.len() {
                    assert(d.push(c)[i] == d[i]);
                }
            }
        } else {
            assert(d.push(c)[d.len() as int] == c);
        }
    }
    if s.len() > 0 && s[0] != '+' {
        assert((seq!['+'] + s).skip(1) =~= s);
    }
    assert(seq!['+'].skip(1) =~= Seq::<char>::empty());
}

/// A number that is written in decimal is read back, and is written without leading zeros.
pub proof fn law_decimals_are_read_back(n: nat)
    ensures
        number(decimal(n)) == Some(n),
        decimal(n).len() > 0,
        n > 0 ==> decimal(n)[0] != '0',
        n == 0 ==> decimal(n) == seq!['0'],
        decimal(n)[0] != '+',
    decreases n,
{
    if n < 10 {
        law_numbers_are_read_digit_by_digit(Seq::empty(), digit(n));
    } else {
        law_decimals_are_read_back(n / 10);
        law_numbers_are_read_digit_by_digit(decimal(n / 10), digit(n % 10));
        assert(decimal(n)[0] == decimal(n / 10)[0]);
    }
}

/// A negative number is written like the positive one, behind a minus sign.
pub proof fn law_signs_stand_before_decimals(n: nat)
    requires
        n > 0,
    ensures
        signed_decimal(n as int) == decimal(n),
        signed_decimal(-(n as int)) == seq!['-'] + decimal(n),
        signed_decimal(0) == seq!['0'],
{
    assert(signed_decimal(0) =~= seq!['0']);
}

/// What stands behind the last one of a character holds that character no more; before it stand the
/// character and the rest of the text, if it holds the character at all.
pub proof fn law_the_tail_stands_behind_the_last(s: Seq<char>, c: char)
    ensures
        !after_last(s, c).contains(c),
        s.contains(c) ==> after_last(s, c).len() < s.len() && s == s.take(
            s.len() - after_last(s, c).len() - 1,
        ) + seq![c] + after_last(s, c),
        !s.contains(c) ==> after_last(s, c) == s,
    decreases s.len(),
{
    if s.len() > 0 {
        let front = s.drop_last();
        let tail = after_last(s, c);
        law_the_tail_stands_behind_the_last(front, c);
        assert(s =~= front.push(s.last()));
        vstd::seq_lib::lemma_seq_contains_after_push(front, s.last(), c);
        if s.last() == c {
            assert(s =~= s.take(s.len() - 1) + seq![c] + tail);
            assert(s.contains(c)) by {
                assert(s[s.len() - 1] == c);
            }
        } else {
            vstd::seq_lib::lemma_seq_contains_after_push(after_last(front, c), s.last(), c);
            if s.contains(c) {
                let k = s.len() - tail.len() - 1;
                assert(front == front.take(k) + seq![c] + after_last(front, c));
                assert(s.take(k) =~= front.take(k));
                assert(s =~= s.take(k) + seq![c] + tail);
            } else {
                assert(tail =~= s);
            }
        }
    }
}

/// No piece of a text holds what separates the pieces.
pub proof fn law_pieces_hold_no_separator(s: Seq<char>, sep: Seq<char>, k: int)
    requires
        sep.len() > 0,
        0 <= k < pieces(s, sep).len(),
    ensures
        !is_part_of(sep, pieces(s, sep)[k]),
    decreases s.len(),
{
    lemma_find_from(s, sep, 0);
    match find_from(s, sep, 0) {
        Some(i) => {
            let rest = s.skip(i + sep.len());
            if k == 0 {
                let piece = s.take(i);
                assert(pieces(s, sep)[0] == piece);
                assert forall|j: int| !occurs_at(piece, sep, j) by {
                    if occurs_at(piece, sep, j) {
                        assert(s.subrange(j, j + sep.len()) =~= piece.subrange(j, j + sep.len()));
                        assert(occurs_at(s, sep, j));
                    }
                }
            } else {
                assert(pieces(s, sep)[k] == pieces(rest, sep)[k - 1]);
                law_pieces_hold_no_separator(rest, sep, k - 1);
            }
        },
        None => {
            assert forall|j: int| !occurs_at(s, sep, j) by {}
        },
    }
}

/// Two lists of parts, one behind the other, are joined by joining each of them, with the separator
/// once between them; one part alone stays as it is.
pub proof fn law_joined_lists_have_one_separator_between(
    a: Seq<Seq<char>>,
    b: Seq<Seq<char>>,
    sep: Seq<char>,
)
    requires
        a.len() > 0,
        b.len() > 0,
    ensures
        interleaved(a + b, sep) == interleaved(a, sep) + sep + interleaved(b, sep),
        a.len() == 1 ==> interleaved(a, sep) == a[0],
        interleaved(Seq::empty(), sep).len() == 0,
    decreases b.len(),
{
    let all = a + b;
    assert(all.last() == b.last());
    if b.len() == 1 {
        assert(all.drop_last() =~= a);
    } else {
        assert(all.drop_last() =~= a + b.drop_last());
        law_joined_lists_have_one_separator_between(a, b.drop_last(), sep);
        assert(interleaved(a, sep) + sep + interleaved(b.drop_last(), sep) + sep + b.last()
            =~= interleaved(a, sep) + sep + (interleaved(b.drop_last(), sep) + sep + b.last()));
    }
}

/// What is kept of a list does not change when more texts follow, and what follows is kept behind it.
pub proof fn law_distinct_texts_keep_their_order(a: Seq<Seq<char>>, b: Seq<Seq<char>>)
    ensures
        distinct_texts(a).is_prefix_of(distinct_texts(a + b)),
        forall|i: int|
            0 <= i < a.len() && a.no_duplicates() ==> #[trigger] distinct_texts(a)[i] == a[i],
    decreases b.len(),
{
    if b.len() == 0 {
        assert(a + b =~= a);
    } else {
        law_distinct_texts_keep_their_order(a, b.drop_last());
        assert((a + b).drop_last() =~= a + b.drop_last());
        let before = distinct_texts(a + b.drop_last());
        assert(distinct_texts(a).is_prefix_of(before));
        assert(distinct_texts(a) =~= distinct_texts(a + b).take(distinct_texts(a).len() as int));
    }
    if a.no_duplicates() {
        lemma_distinct_of_distinct(a);
    }
}

proof fn lemma_distinct_of_distinct(a: Seq<Seq<char>>)
    requires
        a.no_duplicates(),
    ensures
        distinct_texts(a) == a,
    decreases a.len(),
{
    if a.len() > 0 {
        let front = a.drop_last();
        lemma_distinct_of_distinct(front);
        assert(!front.contains(a.last())) by {
            if front.contains(a.last()) {
                let i = choose|i: int| 0 <= i < front.len() && front[i] == a.last();
                assert(a[i] == a[a.len() - 1]);
            }
        }
        assert(front.push(a.last()) =~= a);
    }
}

/// Where a text without a character follows one of that character, that text is what stands behind the
/// last one.
pub proof fn law_an_appended_tail_is_the_last(front: Seq<char>, c: char, tail: Seq<char>)
    requires
        !tail.contains(c),
    ensures
        after_last(front + seq![c] + tail, c) == tail,
{
    let s = front + seq![c] + tail;
    let t = after_last(s, c);
    let n = front.len() as int;
    law_the_tail_stands_behind_the_last(s, c);
    assert(s[n] == c);
    assert(s.contains(c));
    let k = s.len() - t.len() - 1;
    assert(s[k] == (s.take(k) + seq![c] + t)[k]);
    if k > n {
        assert(tail[k - n - 1] == c);
        assert(tail.contains(c));
    }
    if k < n {
        assert(s[n] == (s.take(k) + seq![c] + t)[n]);
        assert(t[n - k - 1] == c);
        assert(t.contains(c));
    }
    assert(t =~= tail) by {
        assert(t =~= (s.take(k) + seq![c] + t).skip(n + 1));
        assert(tail =~= s.skip(n + 1));
    }
}

/// The control characters are those below the space, the one behind the tilde, and the thirty-two behind
/// that one: no other ASCII character is one.
pub proof fn law_control_characters(c: char)
    ensures
        c < ' ' ==> control(c),
        ' ' <= c && c <= '~' ==> !control(c),
        '\u{7f}' <= c && c <= '\u{9f}' ==> control(c),
        '\u{a0}' <= c ==> !control(c),
{
}

} // verus!
