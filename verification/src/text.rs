//! Verified text primitives: ordering, comparison, escaping and rendering.
//!
//! Contracts speak of texts as sequences of characters.

use vstd::prelude::*;
use vstd::std_specs::iter::IteratorSpec;

verus! {

/// `String::push` appends one character to the end of the text.
pub assume_specification[ String::push ](text: &mut String, c: char)
    ensures
        final(text)@ == old(text)@.push(c),
;

/// Strict lexicographic order on texts, by code point.
pub open spec fn text_lt(a: Seq<char>, b: Seq<char>) -> bool
    decreases b.len(),
{
    if b.len() == 0 {
        false
    } else if a.len() == 0 {
        true
    } else if a[0] != b[0] {
        a[0] < b[0]
    } else {
        text_lt(a.drop_first(), b.drop_first())
    }
}

/// Strictly increasing in the order of texts.
pub open spec fn ordered(texts: Seq<Seq<char>>) -> bool {
    forall|i: int, j: int| 0 <= i < j < texts.len() ==> #[trigger] text_lt(texts[i], texts[j])
}

/// The elements of a finite set of texts, in increasing order.
pub open spec fn in_order(texts: Set<Seq<char>>) -> Seq<Seq<char>> {
    choose|list: Seq<Seq<char>>| ordered(list) && #[trigger] list.to_set() == texts
}

/// No text comes before itself.
pub proof fn text_lt_irreflexive(a: Seq<char>)
    ensures
        !text_lt(a, a),
    decreases a.len(),
{
    if a.len() > 0 {
        text_lt_irreflexive(a.drop_first());
    }
}

/// The order of texts is transitive.
pub proof fn text_lt_transitive(a: Seq<char>, b: Seq<char>, c: Seq<char>)
    requires
        text_lt(a, b),
        text_lt(b, c),
    ensures
        text_lt(a, c),
    decreases b.len(),
{
    if a.len() > 0 && a[0] == b[0] && b[0] == c[0] {
        text_lt_transitive(a.drop_first(), b.drop_first(), c.drop_first());
    }
}

/// Of two different texts one comes before the other.
pub proof fn text_lt_total(a: Seq<char>, b: Seq<char>)
    ensures
        a == b || text_lt(a, b) || text_lt(b, a),
    decreases a.len(),
{
    if a.len() == 0 || b.len() == 0 {
        assert(a.len() == 0 && b.len() == 0 ==> a =~= b);
    } else if a[0] == b[0] {
        text_lt_total(a.drop_first(), b.drop_first());
        if a.drop_first() == b.drop_first() {
            assert(a =~= seq![a[0]] + a.drop_first());
            assert(b =~= seq![b[0]] + b.drop_first());
        }
    }
}

/// Two texts are never before one another both ways.
pub proof fn text_lt_asymmetric(a: Seq<char>, b: Seq<char>)
    requires
        text_lt(a, b),
    ensures
        !text_lt(b, a),
        a != b,
{
    text_lt_irreflexive(a);
    if text_lt(b, a) {
        text_lt_transitive(a, b, a);
    }
}

/// A set of texts has at most one increasing enumeration.
pub proof fn ordered_unique(a: Seq<Seq<char>>, b: Seq<Seq<char>>)
    requires
        ordered(a),
        ordered(b),
        a.to_set() == b.to_set(),
    ensures
        a == b,
    decreases a.len(),
{
    if a.len() == 0 || b.len() == 0 {
        if a.len() > 0 {
            assert(a.to_set().contains(a[0]));
            assert(b.contains(a[0]));
        }
        if b.len() > 0 {
            assert(b.to_set().contains(b[0]));
            assert(a.contains(b[0]));
        }
        assert(a =~= b);
    } else {
        let x = a.last();
        let y = b.last();
        assert(a.to_set().contains(x));
        assert(b.contains(x));
        assert(b.to_set().contains(y));
        assert(a.contains(y));
        let i = choose|i: int| 0 <= i < b.len() && b[i] == x;
        let j = choose|j: int| 0 <= j < a.len() && a[j] == y;
        if x != y {
            assert(text_lt(b[i], b[b.len() - 1]));
            assert(text_lt(a[j], a[a.len() - 1]));
            text_lt_asymmetric(x, y);
        }
        let a1 = a.drop_last();
        let b1 = b.drop_last();
        assert forall|t: Seq<char>| a1.to_set().contains(t) <==> b1.to_set().contains(t) by {
            if a1.contains(t) {
                let k = choose|k: int| 0 <= k < a1.len() && a1[k] == t;
                assert(a[k] == t);
                assert(text_lt(a[k], a[a.len() - 1]));
                text_lt_asymmetric(t, x);
                assert(a.to_set().contains(t));
                assert(b.contains(t));
                let m = choose|m: int| 0 <= m < b.len() && b[m] == t;
                assert(b1[m] == t);
            }
            if b1.contains(t) {
                let k = choose|k: int| 0 <= k < b1.len() && b1[k] == t;
                assert(b[k] == t);
                assert(text_lt(b[k], b[b.len() - 1]));
                text_lt_asymmetric(t, y);
                assert(b.to_set().contains(t));
                assert(a.contains(t));
                let m = choose|m: int| 0 <= m < a.len() && a[m] == t;
                assert(a1[m] == t);
            }
        }
        assert(a1.to_set() =~= b1.to_set());
        assert forall|p: int, q: int| 0 <= p < q < a1.len() implies #[trigger] text_lt(
            a1[p],
            a1[q],
        ) by {
            assert(text_lt(a[p], a[q]));
        }
        assert forall|p: int, q: int| 0 <= p < q < b1.len() implies #[trigger] text_lt(
            b1[p],
            b1[q],
        ) by {
            assert(text_lt(b[p], b[q]));
        }
        ordered_unique(a1, b1);
        assert(a =~= a1.push(x));
        assert(b =~= b1.push(y));
    }
}

/// An increasing list is the enumeration of its own elements.
pub proof fn ordered_is_in_order(list: Seq<Seq<char>>)
    requires
        ordered(list),
    ensures
        in_order(list.to_set()) == list,
{
    let chosen = in_order(list.to_set());
    assert(ordered(chosen) && chosen.to_set() == list.to_set());
    ordered_unique(chosen, list);
}

spec fn placed(list: Seq<Seq<char>>, text: Seq<char>) -> Seq<Seq<char>>
    decreases list.len(),
{
    if list.len() == 0 || text_lt(list.last(), text) {
        list.push(text)
    } else if list.last() == text {
        list
    } else {
        placed(list.drop_last(), text).push(list.last())
    }
}

proof fn placed_in_order(list: Seq<Seq<char>>, text: Seq<char>)
    requires
        ordered(list),
    ensures
        ordered(placed(list, text)),
        forall|other: Seq<char>| #[trigger]
            placed(list, text).contains(other) <==> (list.contains(other) || other == text),
    decreases list.len(),
{
    let all = placed(list, text);
    if list.len() == 0 || text_lt(list.last(), text) {
        assert forall|i: int, j: int| 0 <= i < j < all.len() implies #[trigger] text_lt(
            all[i],
            all[j],
        ) by {
            if j < list.len() {
                assert(text_lt(list[i], list[j]));
            } else if i < list.len() - 1 {
                assert(text_lt(list[i], list[list.len() - 1]));
                text_lt_transitive(list[i], list.last(), text);
            }
        }
        assert forall|other: Seq<char>|
            all.contains(other) <==> (list.contains(other) || other == text) by {
            if list.contains(other) {
                let k = choose|k: int| 0 <= k < list.len() && list[k] == other;
                assert(all[k] == other);
            }
            assert(all[list.len() as int] == text);
        }
    } else if list.last() != text {
        let rest = list.drop_last();
        let more = placed(rest, text);
        assert forall|i: int, j: int| 0 <= i < j < rest.len() implies #[trigger] text_lt(
            rest[i],
            rest[j],
        ) by {
            assert(text_lt(list[i], list[j]));
        }
        placed_in_order(rest, text);
        text_lt_total(list.last(), text);
        assert forall|other: Seq<char>|
            all.contains(other) <==> (list.contains(other) || other == text) by {
            if all.contains(other) {
                let k = choose|k: int| 0 <= k < all.len() && all[k] == other;
                if k < more.len() {
                    assert(more[k] == other);
                    assert(more.contains(other));
                    if other != text {
                        assert(rest.contains(other));
                        let m = choose|m: int| 0 <= m < rest.len() && rest[m] == other;
                        assert(list[m] == other);
                    }
                } else {
                    assert(list[list.len() - 1] == other);
                }
            }
            if list.contains(other) {
                let k = choose|k: int| 0 <= k < list.len() && list[k] == other;
                if k < rest.len() {
                    assert(rest[k] == other);
                    assert(rest.contains(other));
                    assert(more.contains(other));
                    let m = choose|m: int| 0 <= m < more.len() && more[m] == other;
                    assert(all[m] == other);
                } else {
                    assert(all[more.len() as int] == other);
                }
            }
            if other == text {
                assert(more.contains(text));
                let m = choose|m: int| 0 <= m < more.len() && more[m] == text;
                assert(all[m] == text);
            }
        }
        assert forall|i: int, j: int| 0 <= i < j < all.len() implies #[trigger] text_lt(
            all[i],
            all[j],
        ) by {
            if j < more.len() {
                assert(text_lt(more[i], more[j]));
            } else {
                assert(more.contains(more[i]));
                assert(all[i] == more[i]);
                if more[i] != text {
                    assert(rest.contains(more[i]));
                    let m = choose|m: int| 0 <= m < rest.len() && rest[m] == more[i];
                    assert(text_lt(list[m], list[list.len() - 1]));
                }
            }
        }
    } else {
        assert(list[list.len() - 1] == text);
    }
}

/// A finite set of texts has all its texts in its list, in order.
pub proof fn in_order_is_ordered(texts: Set<Seq<char>>)
    requires
        texts.finite(),
    ensures
        ordered(in_order(texts)),
        in_order(texts).to_set() == texts,
    decreases texts.len(),
{
    if texts.len() == 0 {
        let list = Seq::<Seq<char>>::empty();
        assert(list.to_set() =~= texts);
        assert(ordered(list) && list.to_set() == texts);
    } else {
        let text = texts.choose();
        let rest = texts.remove(text);
        in_order_is_ordered(rest);
        let list = placed(in_order(rest), text);
        placed_in_order(in_order(rest), text);
        assert forall|other: Seq<char>| list.to_set().contains(other) <==> texts.contains(other) by {
            assert(in_order(rest).to_set().contains(other) == rest.contains(other));
        }
        assert(list.to_set() =~= texts);
        assert(ordered(list) && list.to_set() == texts);
    }
}

/// There are as many texts in order as there are texts.
pub proof fn in_order_keeps_count(texts: Set<Seq<char>>)
    requires
        texts.finite(),
    ensures
        in_order(texts).len() == texts.len(),
{
    let list = in_order(texts);
    in_order_is_ordered(texts);
    assert forall|i: int, j: int| 0 <= i < j < list.len() implies list[i] != list[j] by {
        assert(text_lt(list[i], list[j]));
        text_lt_irreflexive(list[i]);
    }
    assert(list.no_duplicates());
    list.unique_seq_to_set();
}

/// Whether the first text comes before the second.
pub fn text_less(a: &str, b: &str) -> (r: bool)
    ensures
        r == text_lt(a@, b@),
{
    let mut left = a.chars();
    let mut right = b.chars();
    loop
        invariant
            left.obeys_prophetic_iter_laws(),
            right.obeys_prophetic_iter_laws(),
            right.decrease() is Some,
            text_lt(a@, b@) == text_lt(left.remaining(), right.remaining()),
        decreases right.decrease()->0,
    {
        match right.next() {
            None => {
                return false;
            },
            Some(d) => match left.next() {
                None => {
                    return true;
                },
                Some(c) => {
                    if c != d {
                        return c < d;
                    }
                },
            },
        }
    }
}

/// Whether two texts hold the same characters.
pub fn text_eq(a: &str, b: &str) -> (r: bool)
    ensures
        r == (a@ == b@),
{
    let mut left = a.chars();
    let mut right = b.chars();
    let ghost mut done: Seq<char> = Seq::empty();
    proof {
        assert(a@ =~= done + left.remaining());
        assert(b@ =~= done + right.remaining());
    }
    loop
        invariant
            left.obeys_prophetic_iter_laws(),
            right.obeys_prophetic_iter_laws(),
            right.decrease() is Some,
            a@ == done + left.remaining(),
            b@ == done + right.remaining(),
        decreases right.decrease()->0,
    {
        let ghost rest_a = left.remaining();
        let ghost rest_b = right.remaining();
        match right.next() {
            None => {
                let rest = left.next();
                assert(b@ =~= done);
                match rest {
                    None => {
                        assert(a@ =~= done);
                        return true;
                    },
                    Some(_) => {
                        assert(a@.len() > b@.len());
                        return false;
                    },
                }
            },
            Some(d) => match left.next() {
                None => {
                    assert(a@ =~= done);
                    assert(b@.len() > a@.len());
                    return false;
                },
                Some(c) => {
                    assert(a@[done.len() as int] == c);
                    assert(b@[done.len() as int] == d);
                    if c != d {
                        return false;
                    }
                    proof {
                        assert(rest_a =~= seq![c] + rest_a.drop_first());
                        assert(rest_b =~= seq![d] + rest_b.drop_first());
                        assert(done.push(c) + left.remaining() =~= done + rest_a);
                        assert(done.push(d) + right.remaining() =~= done + rest_b);
                        done = done.push(c);
                    }
                },
            },
        }
    }
}

/// The characters of a text.
pub fn chars_of(text: &str) -> (r: Vec<char>)
    ensures
        r@ == text@,
{
    let mut out: Vec<char> = Vec::new();
    for c in it: text.chars()
        invariant
            out@ == text@.take(it.index()),
            it.seq() == text@,
    {
        out.push(c);
    }
    out
}

/// The text of a range of characters.
pub fn text_of(chars: &Vec<char>, from: usize, to: usize) -> (r: String)
    requires
        from <= to <= chars.len(),
    ensures
        r@ == chars@.subrange(from as int, to as int),
{
    let mut out = String::new();
    let mut i: usize = from;
    while i < to
        invariant
            from <= i <= to <= chars.len(),
            out@ == chars@.subrange(from as int, i as int),
        decreases to - i,
    {
        out.push(chars[i]);
        i += 1;
    }
    out
}

/// Two texts one after the other.
pub fn concat2(a: &str, b: &str) -> (r: String)
    ensures
        r@ == a@ + b@,
{
    let mut out = a.to_owned();
    out.append(b);
    out
}

/// Three texts one after the other.
pub fn concat3(a: &str, b: &str, c: &str) -> (r: String)
    ensures
        r@ == a@ + b@ + c@,
{
    let mut out = a.to_owned();
    out.append(b);
    out.append(c);
    out
}

/// Code point of a character, with ASCII capitals folded to small letters.
pub open spec fn ascii_fold(c: char) -> int {
    if 'A' <= c && c <= 'Z' {
        c as int + 32
    } else {
        c as int
    }
}

/// Equality of texts that does not tell ASCII capitals from small letters.
pub open spec fn same_ignoring_case(a: Seq<char>, b: Seq<char>) -> bool {
    &&& a.len() == b.len()
    &&& forall|i: int|
        0 <= i < a.len() ==> ascii_fold(#[trigger] a[i]) == ascii_fold(#[trigger] b[i])
}

fn fold(c: char) -> (r: u32)
    ensures
        r == ascii_fold(c),
{
    if 'A' <= c && c <= 'Z' {
        c as u32 + 32
    } else {
        c as u32
    }
}

/// Whether two texts are equal but for the case of ASCII letters.
pub fn eq_ignore_ascii_case(a: &str, b: &str) -> (r: bool)
    ensures
        r == same_ignoring_case(a@, b@),
{
    let left = chars_of(a);
    let right = chars_of(b);
    if left.len() != right.len() {
        return false;
    }
    let mut i: usize = 0;
    while i < left.len()
        invariant
            left@ == a@,
            right@ == b@,
            left.len() == right.len(),
            i <= left.len(),
            forall|k: int| 0 <= k < i ==> ascii_fold(a@[k]) == ascii_fold(b@[k]),
        decreases left.len() - i,
    {
        if fold(left[i]) != fold(right[i]) {
            assert(ascii_fold(a@[i as int]) != ascii_fold(b@[i as int]));
            return false;
        }
        i += 1;
    }
    true
}

/// Equality but for case is symmetric.
pub proof fn same_ignoring_case_symmetric(a: Seq<char>, b: Seq<char>)
    ensures
        same_ignoring_case(a, b) == same_ignoring_case(b, a),
{
}

/// Equality but for case is transitive.
pub proof fn same_ignoring_case_transitive(a: Seq<char>, b: Seq<char>, c: Seq<char>)
    requires
        same_ignoring_case(a, b),
        same_ignoring_case(b, c),
    ensures
        same_ignoring_case(a, c),
{
    assert forall|i: int| 0 <= i < a.len() implies ascii_fold(#[trigger] a[i]) == ascii_fold(
        #[trigger] c[i],
    ) by {
        assert(ascii_fold(a[i]) == ascii_fold(b[i]));
        assert(ascii_fold(b[i]) == ascii_fold(c[i]));
    }
}

/// Whether `part` occurs somewhere in `text`.
pub open spec fn has_part(text: Seq<char>, part: Seq<char>) -> bool {
    exists|i: int|
        0 <= i <= text.len() - part.len() && #[trigger] text.subrange(i, i + part.len()) == part
}

fn part_at(text: &Vec<char>, part: &Vec<char>, at: usize) -> (r: bool)
    requires
        at + part.len() <= text.len(),
    ensures
        r == (text@.subrange(at as int, at + part.len()) == part@),
{
    let mut k: usize = 0;
    while k < part.len()
        invariant
            at + part.len() <= text.len(),
            k <= part.len(),
            forall|m: int| 0 <= m < k ==> text@[at + m] == part@[m],
        decreases part.len() - k,
    {
        if text[at + k] != part[k] {
            assert(text@.subrange(at as int, at + part.len())[k as int] != part@[k as int]);
            return false;
        }
        k += 1;
    }
    assert(text@.subrange(at as int, at + part.len()) =~= part@);
    true
}

/// Whether `part` occurs somewhere in `text`.
pub fn contains_text(text: &str, part: &str) -> (r: bool)
    ensures
        r == has_part(text@, part@),
{
    let whole = chars_of(text);
    let piece = chars_of(part);
    if piece.len() > whole.len() {
        return false;
    }
    let last = whole.len() - piece.len();
    let mut i: usize = 0;
    while i <= last
        invariant
            whole@ == text@,
            piece@ == part@,
            piece.len() <= whole.len(),
            last == whole.len() - piece.len(),
            i <= last + 1,
            forall|m: int|
                0 <= m < i ==> #[trigger] text@.subrange(m, m + part@.len()) != part@,
        decreases last + 1 - i,
    {
        if part_at(&whole, &piece, i) {
            return true;
        }
        if i == last {
            return false;
        }
        i += 1;
    }
    false
}

/// Whether `text` starts with `prefix`.
pub fn starts_with_text(text: &str, prefix: &str) -> (r: bool)
    ensures
        r == prefix@.is_prefix_of(text@),
{
    let whole = chars_of(text);
    let piece = chars_of(prefix);
    if piece.len() > whole.len() {
        return false;
    }
    part_at(&whole, &piece, 0)
}

/// Whether `text` holds the character `c`.
pub fn contains_char(text: &str, c: char) -> (r: bool)
    ensures
        r == text@.contains(c),
{
    for d in it: text.chars()
        invariant
            it.seq() == text@,
            forall|k: int| 0 <= k < it.index() ==> text@[k] != c,
    {
        if d == c {
            assert(text@[it.index()] == c);
            return true;
        }
    }
    false
}

/// Whether `text` starts with the character `c`.
pub open spec fn begins_with(text: Seq<char>, c: char) -> bool {
    text.len() > 0 && text[0] == c
}

/// Whether `text` starts with the character `c`.
pub fn starts_with_char(text: &str, c: char) -> (r: bool)
    ensures
        r == begins_with(text@, c),
{
    let mut chars = text.chars();
    match chars.next() {
        Some(d) => c == d,
        None => false,
    }
}

/// `text` without the run of `c` at its end.
pub open spec fn trimmed_end(text: Seq<char>, c: char) -> Seq<char>
    decreases text.len(),
{
    if text.len() > 0 && text.last() == c {
        trimmed_end(text.drop_last(), c)
    } else {
        text
    }
}

/// `text` without the run of `c` at its end.
pub fn trim_end_char(text: &str, c: char) -> (r: String)
    ensures
        r@ == trimmed_end(text@, c),
{
    let chars = chars_of(text);
    let mut end: usize = chars.len();
    assert(chars@.take(end as int) =~= chars@);
    while end > 0 && chars[end - 1] == c
        invariant
            end <= chars.len(),
            chars@ == text@,
            trimmed_end(text@, c) == trimmed_end(chars@.take(end as int), c),
        decreases end,
    {
        assert(chars@.take(end as int).drop_last() =~= chars@.take(end - 1));
        end -= 1;
    }
    assert(chars@.take(end as int) =~= chars@.subrange(0, end as int));
    text_of(&chars, 0, end)
}

/// Characters with the Unicode property `White_Space`.
pub open spec fn is_white_space(c: char) -> bool {
    let n = c as int;
    ||| 0x9 <= n <= 0xd
    ||| n == 0x20
    ||| n == 0x85
    ||| n == 0xa0
    ||| n == 0x1680
    ||| 0x2000 <= n <= 0x200a
    ||| n == 0x2028
    ||| n == 0x2029
    ||| n == 0x202f
    ||| n == 0x205f
    ||| n == 0x3000
}

/// Whether a character is white space.
pub fn white_space(c: char) -> (r: bool)
    ensures
        r == is_white_space(c),
{
    let n: u32 = c as u32;
    (0x9 <= n && n <= 0xd) || n == 0x20 || n == 0x85 || n == 0xa0 || n == 0x1680 || (0x2000 <= n
        && n <= 0x200a) || n == 0x2028 || n == 0x2029 || n == 0x202f || n == 0x205f || n == 0x3000
}

/// Nothing but white space, or nothing at all.
pub open spec fn is_blank(text: Seq<char>) -> bool {
    forall|i: int| 0 <= i < text.len() ==> is_white_space(#[trigger] text[i])
}

/// Whether `text` is empty once the white space around it is dropped.
pub fn blank(text: &str) -> (r: bool)
    ensures
        r == is_blank(text@),
{
    for c in it: text.chars()
        invariant
            it.seq() == text@,
            forall|k: int| 0 <= k < it.index() ==> is_white_space(#[trigger] text@[k]),
    {
        if !white_space(c) {
            assert(!is_white_space(text@[it.index()]));
            return false;
        }
    }
    true
}

/// The decimal digit with the given value.
pub open spec fn digit(d: int) -> char {
    (48 + d) as char
}

/// A number in decimal, without leading zeros.
pub open spec fn decimal(n: nat) -> Seq<char>
    decreases n,
{
    if n < 10 {
        seq![digit(n as int)]
    } else {
        decimal(n / 10).push(digit((n % 10) as int))
    }
}

/// A number in decimal, without leading zeros.
pub fn decimal_text(n: u64) -> (r: String)
    ensures
        r@ == decimal(n as nat),
    decreases n,
{
    let d: u8 = (n % 10) as u8;
    let c: char = (48 + d) as char;
    let mut out = if n < 10 {
        String::new()
    } else {
        decimal_text(n / 10)
    };
    out.push(c);
    assert(n < 10 ==> out@ =~= seq![digit(n as int)]);
    out
}

/// The texts of a list with a separator between neighbours.
pub open spec fn joined(parts: Seq<Seq<char>>, separator: Seq<char>) -> Seq<char>
    decreases parts.len(),
{
    if parts.len() == 0 {
        Seq::empty()
    } else if parts.len() == 1 {
        parts[0]
    } else {
        joined(parts.drop_last(), separator) + separator + parts.last()
    }
}

/// The views of the elements of a sequence.
pub open spec fn views<T: View>(items: Seq<T>) -> Seq<T::V> {
    items.map_values(|item: T| item@)
}

/// Viewing the elements commutes with adding one at the end.
pub broadcast proof fn views_push<T: View>(items: Seq<T>, item: T)
    ensures
        #[trigger] views(items.push(item)) == views(items).push(item@),
{
    assert(views(items.push(item)) =~= views(items).push(item@));
}

/// The view of the element of an option.
pub open spec fn option_view<T: View>(item: Option<T>) -> Option<T::V> {
    match item {
        Some(value) => Some(value@),
        None => None,
    }
}

/// The texts of a list with a separator between neighbours.
pub fn join_texts(parts: &Vec<String>, separator: &str) -> (r: String)
    ensures
        r@ == joined(views(parts@), separator@),
{
    let mut out = String::new();
    let mut i: usize = 0;
    while i < parts.len()
        invariant
            i <= parts.len(),
            out@ == joined(views(parts@).take(i as int), separator@),
        decreases parts.len() - i,
    {
        if i > 0 {
            out.append(separator);
        }
        out.append(parts[i].as_str());
        assert(views(parts@).take(i + 1).drop_last() =~= views(parts@).take(i as int));
        assert(i == 0 ==> out@ =~= views(parts@).take(1)[0]);
        i += 1;
    }
    assert(views(parts@).take(i as int) =~= views(parts@));
    out
}

/// A copy of a list of texts.
pub fn clone_texts(texts: &Vec<String>) -> (r: Vec<String>)
    ensures
        views(r@) == views(texts@),
{
    let mut out: Vec<String> = Vec::new();
    let mut i: usize = 0;
    while i < texts.len()
        invariant
            i <= texts.len(),
            views(out@) == views(texts@).take(i as int),
        decreases texts.len() - i,
    {
        let ghost before = out@;
        out.push(texts[i].clone());
        proof {
            views_push(before, out@.last());
        }
        assert(views(out@) =~= views(texts@).take(i + 1));
        i += 1;
    }
    assert(views(out@) =~= views(texts@));
    out
}

/// A copy of a text that may be missing.
pub fn clone_text(text: &Option<String>) -> (r: Option<String>)
    ensures
        option_view(r) == option_view(*text),
{
    match text {
        Some(text) => Some(text.clone()),
        None => None,
    }
}

/// Whether a text is in a list.
pub fn holds(texts: &Vec<String>, text: &str) -> (r: bool)
    ensures
        r == views(texts@).contains(text@),
{
    let mut i: usize = 0;
    while i < texts.len()
        invariant
            i <= texts.len(),
            forall|k: int| 0 <= k < i ==> #[trigger] views(texts@)[k] != text@,
        decreases texts.len() - i,
    {
        assert(views(texts@)[i as int] == texts@[i as int]@);
        if text_eq(texts[i].as_str(), text) {
            return true;
        }
        i += 1;
    }
    false
}

/// A text without the white space at its start.
pub open spec fn trimmed_start(text: Seq<char>) -> Seq<char>
    decreases text.len(),
{
    if text.len() > 0 && is_white_space(text[0]) {
        trimmed_start(text.drop_first())
    } else {
        text
    }
}

/// A text without the white space at its end.
pub open spec fn trimmed_blank_end(text: Seq<char>) -> Seq<char>
    decreases text.len(),
{
    if text.len() > 0 && is_white_space(text.last()) {
        trimmed_blank_end(text.drop_last())
    } else {
        text
    }
}

/// A text without the white space around it.
pub open spec fn trimmed(text: Seq<char>) -> Seq<char> {
    trimmed_blank_end(trimmed_start(text))
}

/// A text without the white space around it.
pub fn trim_text(text: &str) -> (r: String)
    ensures
        r@ == trimmed(text@),
{
    let chars = chars_of(text);
    let mut from: usize = 0;
    assert(chars@.skip(0) =~= chars@);
    while from < chars.len() && white_space(chars[from])
        invariant
            from <= chars.len(),
            trimmed_start(chars@) == trimmed_start(chars@.skip(from as int)),
        decreases chars.len() - from,
    {
        assert(chars@.skip(from as int).drop_first() =~= chars@.skip(from + 1));
        from += 1;
    }
    let ghost start = chars@.skip(from as int);
    let mut to: usize = chars.len();
    assert(start == trimmed_start(chars@));
    assert(chars@.subrange(from as int, to as int) =~= start);
    while to > from && white_space(chars[to - 1])
        invariant
            from <= to <= chars.len(),
            trimmed_blank_end(start) == trimmed_blank_end(
                chars@.subrange(from as int, to as int),
            ),
        decreases to,
    {
        assert(chars@.subrange(from as int, to as int).drop_last() =~= chars@.subrange(
            from as int,
            to - 1,
        ));
        to -= 1;
    }
    text_of(&chars, from, to)
}

} // verus!
