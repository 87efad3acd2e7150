//! Text primitives shared by the rest of the crate: comparison, prefixes,
//! ordering, joining and the conversion between strings and characters.
//!
//! Every contract here speaks of a string through its view, the sequence of
//! its characters.

use vstd::prelude::*;

verus! {

/// The views of the elements of a sequence, in order.
pub open spec fn views<T: View>(items: Seq<T>) -> Seq<T::V> {
    Seq::new(items.len(), |i: int| items[i]@)
}

/// `parts` written one after another with `sep` between neighbours.
pub open spec fn join(parts: Seq<Seq<char>>, sep: Seq<char>) -> Seq<char>
    decreases parts.len(),
{
    if parts.len() == 0 {
        Seq::empty()
    } else if parts.len() == 1 {
        parts[0]
    } else {
        join(parts.drop_last(), sep) + sep + parts.last()
    }
}

/// `text` between two apostrophes.
pub open spec fn quoted(text: Seq<char>) -> Seq<char> {
    "'"@ + text + "'"@
}

/// The texts of `items` in order, each where it comes first and not again.
pub open spec fn once(items: Seq<Seq<char>>) -> Seq<Seq<char>>
    decreases items.len(),
{
    if items.len() == 0 {
        Seq::empty()
    } else {
        let before = once(items.drop_last());
        if before.contains(items.last()) {
            before
        } else {
            before.push(items.last())
        }
    }
}

/// Lexicographic order by code point: the first position at which the two
/// texts differ decides, and a proper prefix comes first.
pub open spec fn text_lt(a: Seq<char>, b: Seq<char>) -> bool
    decreases a.len(),
{
    if b.len() == 0 {
        false
    } else if a.len() == 0 {
        true
    } else if a[0] != b[0] {
        (a[0] as int) < (b[0] as int)
    } else {
        text_lt(a.drop_first(), b.drop_first())
    }
}

/// Every element comes strictly before each later one.
pub open spec fn strictly_ascending(items: Seq<Seq<char>>) -> bool {
    forall|i: int, j: int| 0 <= i < j < items.len() ==> text_lt(items[i], items[j])
}

/// The two sequences hold the same texts, whatever their order and number.
pub open spec fn same_members(a: Seq<Seq<char>>, b: Seq<Seq<char>>) -> bool {
    forall|t: Seq<char>| a.contains(t) <==> b.contains(t)
}

/// Texts that are joined start with the first of them.
pub proof fn lemma_join_starts(parts: Seq<Seq<char>>, sep: Seq<char>)
    requires
        parts.len() > 0,
    ensures
        parts[0].is_prefix_of(join(parts, sep)),
    decreases parts.len(),
{
    if parts.len() > 1 {
        let rest = parts.drop_last();
        assert(rest[0] == parts[0]);
        lemma_join_starts(rest, sep);
        let joined = join(rest, sep);
        assert(parts[0] =~= joined.subrange(0, parts[0].len() as int));
        assert(parts[0] =~= (joined + sep + parts.last()).subrange(0, parts[0].len() as int));
    } else {
        assert(parts[0] =~= parts[0].subrange(0, parts[0].len() as int));
    }
}

/// No text comes before itself.
pub proof fn lemma_text_lt_irreflexive(a: Seq<char>)
    ensures
        !text_lt(a, a),
    decreases a.len(),
{
    if a.len() > 0 {
        lemma_text_lt_irreflexive(a.drop_first());
    }
}

/// What comes before a text comes before everything behind that text.
pub proof fn lemma_text_lt_transitive(a: Seq<char>, b: Seq<char>, c: Seq<char>)
    requires
        text_lt(a, b),
        text_lt(b, c),
    ensures
        text_lt(a, c),
    decreases a.len(),
{
    if a.len() > 0 && a[0] == b[0] && b[0] == c[0] {
        lemma_text_lt_transitive(a.drop_first(), b.drop_first(), c.drop_first());
    }
}

/// Of two different texts one comes before the other.
pub proof fn lemma_text_lt_total(a: Seq<char>, b: Seq<char>)
    ensures
        text_lt(a, b) || a == b || text_lt(b, a),
    decreases a.len(),
{
    if a.len() == 0 || b.len() == 0 {
        if a.len() == 0 && b.len() == 0 {
            assert(a =~= b);
        }
    } else if a[0] == b[0] {
        lemma_text_lt_total(a.drop_first(), b.drop_first());
        if a.drop_first() == b.drop_first() {
            assert(a =~= seq![a[0]] + a.drop_first());
            assert(b =~= seq![b[0]] + b.drop_first());
        }
    } else {
        assert(a[0] as int != b[0] as int);
    }
}

/// A strictly ascending sequence is fixed by its members: two of them with the
/// same members are the same sequence.
pub proof fn lemma_ascending_unique(a: Seq<Seq<char>>, b: Seq<Seq<char>>)
    requires
        strictly_ascending(a),
        strictly_ascending(b),
        same_members(a, b),
    ensures
        a == b,
    decreases a.len(),
{
    if a.len() == 0 {
        if b.len() > 0 {
            assert(b.contains(b[0]));
            assert(a.contains(b[0]));
        }
        assert(a =~= b);
    } else if b.len() == 0 {
        assert(a.contains(a[0]));
        assert(b.contains(a[0]));
    } else {
        // the last element of each is its greatest member, so the two agree
        let x = a.last();
        let y = b.last();
        assert(a.contains(x));
        assert(b.contains(y));
        let i = choose|i: int| 0 <= i < b.len() && b[i] == x;
        let j = choose|j: int| 0 <= j < a.len() && a[j] == y;
        if x != y {
            lemma_text_lt_total(x, y);
            if text_lt(x, y) {
                assert(text_lt(a[j], x) || j == a.len() - 1);
                lemma_text_lt_transitive(x, y, x);
            } else {
                assert(text_lt(b[i], y) || i == b.len() - 1);
                lemma_text_lt_transitive(y, x, y);
            }
            lemma_text_lt_irreflexive(x);
            lemma_text_lt_irreflexive(y);
        }
        let a0 = a.drop_last();
        let b0 = b.drop_last();
        assert forall|t: Seq<char>| a0.contains(t) <==> b0.contains(t) by {
            lemma_text_lt_irreflexive(x);
            if a0.contains(t) {
                let k = choose|k: int| 0 <= k < a0.len() && a0[k] == t;
                assert(a[k] == t && text_lt(a[k], x));
                assert(a.contains(t));
                let m = choose|m: int| 0 <= m < b.len() && b[m] == t;
                assert(m < b.len() - 1);
                assert(b0[m] == t);
            }
            if b0.contains(t) {
                let k = choose|k: int| 0 <= k < b0.len() && b0[k] == t;
                assert(b[k] == t && text_lt(b[k], y));
                assert(b.contains(t));
                let m = choose|m: int| 0 <= m < a.len() && a[m] == t;
                assert(m < a.len() - 1);
                assert(a0[m] == t);
            }
        }
        lemma_ascending_unique(a0, b0);
        assert(a =~= a0.push(x));
        assert(b =~= b0.push(y));
    }
}

/// What `String::push` does: it appends the one character.
pub assume_specification[ String::push ](text: &mut String, ch: char)
    ensures
        final(text)@ == old(text)@.push(ch),
;

/// What `str::to_lowercase` makes of a text: the text with each character in
/// its lower case.
pub uninterp spec fn lowercase_of(text: Seq<char>) -> Seq<char>;

/// Calls `str::to_lowercase`.
#[verifier::external_body]
pub(crate) fn lowercase(text: &str) -> (lower: String)
    ensures
        lower@ == lowercase_of(text@),
{
    text.to_lowercase()
}

/// The characters of `text`.
pub fn chars_of(text: &str) -> (chars: Vec<char>)
    ensures
        chars@ == text@,
{
    let mut chars: Vec<char> = Vec::new();
    for c in it: text.chars()
        invariant
            it.seq() == text@,
            chars@ == text@.take(it.index()),
    {
        chars.push(c);
    }
    chars
}

/// Whether the two texts are the same.
pub fn same_text(a: &str, b: &str) -> (r: bool)
    ensures
        r == (a@ == b@),
{
    let left = chars_of(a);
    let right = chars_of(b);
    if left.len() != right.len() {
        return false;
    }
    let mut i: usize = 0;
    while i < left.len()
        invariant
            i <= left.len(),
            left.len() == right.len(),
            left@ == a@,
            right@ == b@,
            forall|j: int| 0 <= j < i ==> left@[j] == right@[j],
        decreases left.len() - i,
    {
        if left[i] != right[i] {
            return false;
        }
        i += 1;
    }
    assert(left@ =~= right@);
    true
}

/// Whether `prefix` is an initial part of `text`.
pub fn has_prefix(text: &str, prefix: &str) -> (b: bool)
    ensures
        b == prefix@.is_prefix_of(text@),
{
    let whole = chars_of(text);
    let start = chars_of(prefix);
    if start.len() > whole.len() {
        return false;
    }
    let mut i: usize = 0;
    while i < start.len()
        invariant
            i <= start.len() <= whole.len(),
            whole@ == text@,
            start@ == prefix@,
            forall|j: int| 0 <= j < i ==> start@[j] == whole@[j],
        decreases start.len() - i,
    {
        if start[i] != whole[i] {
            assert(whole@.subrange(0, start@.len() as int)[i as int] != start@[i as int]);
            return false;
        }
        i += 1;
    }
    assert(start@ =~= whole@.subrange(0, start@.len() as int));
    true
}

/// Whether `a` comes before `b` in the order of texts.
pub fn precedes(a: &str, b: &str) -> (r: bool)
    ensures
        r == text_lt(a@, b@),
{
    let left = chars_of(a);
    let right = chars_of(b);
    let mut i: usize = 0;
    assert(left@.skip(0) =~= left@ && right@.skip(0) =~= right@);
    loop
        invariant
            i <= left.len(),
            i <= right.len(),
            left@ == a@,
            right@ == b@,
            text_lt(left@, right@) == text_lt(left@.skip(i as int), right@.skip(i as int)),
        decreases left.len() - i,
    {
        if i == right.len() {
            return false;
        }
        if i == left.len() {
            return true;
        }
        proof {
            assert(left@.skip(i as int)[0] == left@[i as int]);
            assert(right@.skip(i as int)[0] == right@[i as int]);
            assert(left@.skip(i as int).drop_first() =~= left@.skip(i + 1));
            assert(right@.skip(i as int).drop_first() =~= right@.skip(i + 1));
        }
        if left[i] != right[i] {
            return left[i] < right[i];
        }
        i += 1;
    }
}

/// The string made of `chars[from..to]`.
pub fn string_of(chars: &Vec<char>, from: usize, to: usize) -> (text: String)
    requires
        from <= to <= chars@.len(),
    ensures
        text@ == chars@.subrange(from as int, to as int),
{
    let mut text = String::new();
    let mut i: usize = from;
    while i < to
        invariant
            from <= i <= to <= chars@.len(),
            text@ == chars@.subrange(from as int, i as int),
        decreases to - i,
    {
        text.push(chars[i]);
        assert(chars@.subrange(from as int, i + 1) =~= chars@.subrange(from as int, i as int).push(
            chars@[i as int],
        ));
        i += 1;
    }
    text
}

/// Whether `items` holds `text`.
pub fn contains_text(items: &Vec<String>, text: &str) -> (found: bool)
    ensures
        found == views(items@).contains(text@),
{
    let mut i: usize = 0;
    while i < items.len()
        invariant
            i <= items.len(),
            forall|j: int| 0 <= j < i ==> views(items@)[j] != text@,
        decreases items.len() - i,
    {
        if same_text(items[i].as_str(), text) {
            assert(views(items@)[i as int] == text@);
            return true;
        }
        i += 1;
    }
    false
}

/// Whether the two lists hold the same texts in the same order.
pub fn same_texts(a: &Vec<String>, b: &Vec<String>) -> (same: bool)
    ensures
        same == (views(a@) == views(b@)),
{
    if a.len() != b.len() {
        assert(views(a@).len() != views(b@).len());
        return false;
    }
    let mut i: usize = 0;
    while i < a.len()
        invariant
            i <= a.len(),
            a.len() == b.len(),
            forall|j: int| 0 <= j < i ==> a@[j]@ == b@[j]@,
        decreases a.len() - i,
    {
        if !same_text(a[i].as_str(), b[i].as_str()) {
            assert(views(a@)[i as int] != views(b@)[i as int]);
            return false;
        }
        i += 1;
    }
    assert(views(a@) =~= views(b@));
    true
}

/// A copy of `items`.
pub fn clone_texts(items: &Vec<String>) -> (copy: Vec<String>)
    ensures
        views(copy@) == views(items@),
{
    let mut copy: Vec<String> = Vec::new();
    let mut i: usize = 0;
    while i < items.len()
        invariant
            i <= items.len(),
            copy@.len() == i,
            forall|j: int| 0 <= j < i ==> copy@[j]@ == items@[j]@,
        decreases items.len() - i,
    {
        copy.push(items[i].clone());
        i += 1;
    }
    assert(views(copy@) =~= views(items@));
    copy
}

/// `parts` written one after another with `sep` between neighbours.
pub fn join_texts(parts: &Vec<String>, sep: &str) -> (text: String)
    ensures
        text@ == join(views(parts@), sep@),
{
    let mut text = String::new();
    let mut i: usize = 0;
    while i < parts.len()
        invariant
            i <= parts.len(),
            text@ == join(views(parts@).take(i as int), sep@),
        decreases parts.len() - i,
    {
        if i > 0 {
            text.append(sep);
        }
        text.append(parts[i].as_str());
        proof {
            let done = views(parts@).take(i + 1);
            assert(done.drop_last() =~= views(parts@).take(i as int));
            assert(done.last() == parts@[i as int]@);
            if i == 0 {
                assert(text@ =~= parts@[0]@);
            }
        }
        i += 1;
    }
    assert(views(parts@).take(parts@.len() as int) =~= views(parts@));
    text
}

/// `text` between two apostrophes.
pub fn quote(text: &str) -> (q: String)
    ensures
        q@ == quoted(text@),
{
    let mut q = "'".to_owned();
    q.append(text);
    q.append("'");
    q
}

/// The members of `items` in ascending order, each once.
pub fn sorted_unique(items: &Vec<String>) -> (sorted: Vec<String>)
    ensures
        strictly_ascending(views(sorted@)),
        same_members(views(sorted@), views(items@)),
{
    let mut sorted: Vec<String> = Vec::new();
    let mut i: usize = 0;
    while i < items.len()
        invariant
            i <= items.len(),
            strictly_ascending(views(sorted@)),
            same_members(views(sorted@), views(items@).take(i as int)),
        decreases items.len() - i,
    {
        let ghost before = views(sorted@);
        let ghost item = items@[i as int]@;
        let mut at: usize = 0;
        while at < sorted.len() && precedes(sorted[at].as_str(), items[i].as_str())
            invariant
                at <= sorted.len(),
                i < items.len(),
                item == items@[i as int]@,
                forall|j: int| 0 <= j < at ==> text_lt(#[trigger] views(sorted@)[j], item),
            decreases sorted.len() - at,
        {
            at += 1;
        }
        let present = at < sorted.len() && same_text(sorted[at].as_str(), items[i].as_str());
        if !present {
            sorted.insert(at, items[i].clone());
            proof {
                let after = views(sorted@);
                assert(after =~= before.insert(at as int, item));
                assert forall|a: int, b: int| 0 <= a < b < after.len() implies text_lt(
                    after[a],
                    after[b],
                ) by {
                    if b == at {
                        assert(after[a] == before[a]);
                    } else if a == at {
                        assert(after[b] == before[b - 1]);
                        lemma_text_lt_total(before[at as int], item);
                        if b - 1 > at {
                            lemma_text_lt_transitive(item, before[at as int], before[b - 1]);
                        }
                    } else {
                        let a0 = if a < at { a } else { a - 1 };
                        let b0 = if b < at { b } else { b - 1 };
                        assert(after[a] == before[a0] && after[b] == before[b0]);
                    }
                }
                assert forall|t: Seq<char>| after.contains(t) <==> views(items@).take(
                    i + 1,
                ).contains(t) by {
                    let prev = views(items@).take(i as int);
                    let next = views(items@).take(i + 1);
                    assert(next =~= prev.push(item));
                    if after.contains(t) {
                        let k = choose|k: int| 0 <= k < after.len() && after[k] == t;
                        if k == at {
                            assert(next[i as int] == t);
                        } else {
                            let k0 = if k < at { k } else { k - 1 };
                            assert(before[k0] == t);
                            assert(before.contains(t));
                            let m = choose|m: int| 0 <= m < prev.len() && prev[m] == t;
                            assert(next[m] == t);
                        }
                    }
                    if next.contains(t) {
                        let m = choose|m: int| 0 <= m < next.len() && next[m] == t;
                        if m == i {
                            assert(after[at as int] == t);
                        } else {
                            assert(prev[m] == t);
                            assert(prev.contains(t));
                            let k = choose|k: int| 0 <= k < before.len() && before[k] == t;
                            let k1 = if k < at { k } else { k + 1 };
                            assert(after[k1] == t);
                        }
                    }
                }
            }
        } else {
            proof {
                let prev = views(items@).take(i as int);
                let next = views(items@).take(i + 1);
                assert(next =~= prev.push(item));
                assert(before[at as int] == item);
                assert forall|t: Seq<char>| before.contains(t) <==> next.contains(t) by {
                    if before.contains(t) {
                        assert(prev.contains(t));
                        let m = choose|m: int| 0 <= m < prev.len() && prev[m] == t;
                        assert(next[m] == t);
                    }
                    if next.contains(t) {
                        let m = choose|m: int| 0 <= m < next.len() && next[m] == t;
                        if m == i {
                            assert(before.contains(t));
                        } else {
                            assert(prev[m] == t);
                            assert(prev.contains(t));
                        }
                    }
                }
            }
        }
        i += 1;
    }
    assert(views(items@).take(items@.len() as int) =~= views(items@));
    sorted
}

/// The character of one decimal digit.
pub open spec fn digit_char(digit: int) -> char {
    if digit == 0 {
        '0'
    } else if digit == 1 {
        '1'
    } else if digit == 2 {
        '2'
    } else if digit == 3 {
        '3'
    } else if digit == 4 {
        '4'
    } else if digit == 5 {
        '5'
    } else if digit == 6 {
        '6'
    } else if digit == 7 {
        '7'
    } else if digit == 8 {
        '8'
    } else {
        '9'
    }
}

/// The decimal digits of `n`, the most significant first, with no leading
/// zero.
pub open spec fn digits_of(n: nat) -> Seq<char>
    decreases n,
{
    if n < 10 {
        seq![digit_char(n as int)]
    } else {
        digits_of(n / 10).push(digit_char((n % 10) as int))
    }
}

/// The decimal text of `n`: its digits, behind a minus sign where it is
/// negative.
pub open spec fn decimal_text(n: int) -> Seq<char> {
    if n < 0 {
        seq!['-'] + digits_of((-n) as nat)
    } else {
        digits_of(n as nat)
    }
}

/// The character of the decimal digit `value`.
pub fn digit(value: u64) -> (c: char)
    requires
        value < 10,
    ensures
        c == digit_char(value as int),
{
    if value == 0 {
        '0'
    } else if value == 1 {
        '1'
    } else if value == 2 {
        '2'
    } else if value == 3 {
        '3'
    } else if value == 4 {
        '4'
    } else if value == 5 {
        '5'
    } else if value == 6 {
        '6'
    } else if value == 7 {
        '7'
    } else if value == 8 {
        '8'
    } else {
        '9'
    }
}

/// The decimal text of `n`.
pub fn decimal(n: i64) -> (text: String)
    ensures
        text@ == decimal_text(n as int),
{
    let magnitude: u64 = if n >= 0 {
        n as u64
    } else {
        (-(n + 1)) as u64 + 1
    };
    // the digits are found from the least significant on
    let mut backwards: Vec<char> = Vec::new();
    backwards.push(digit(magnitude % 10));
    let mut rest: u64 = magnitude / 10;
    assert(digits_of(magnitude as nat) =~= (if rest > 0 {
        digits_of(rest as nat)
    } else {
        Seq::<char>::empty()
    }) + Seq::new(1, |j: int| backwards@[0 - j]));
    while rest > 0
        invariant
            backwards@.len() > 0,
            digits_of(magnitude as nat) == (if rest > 0 {
                digits_of(rest as nat)
            } else {
                Seq::<char>::empty()
            }) + Seq::new(backwards@.len(), |j: int| backwards@[backwards@.len() - 1 - j]),
        decreases rest,
    {
        let ghost before = backwards@;
        let ghost turned = Seq::new(before.len(), |j: int| before[before.len() - 1 - j]);
        let ghost next = digit_char((rest % 10) as int);
        backwards.push(digit(rest % 10));
        proof {
            let now = Seq::new(backwards@.len(), |j: int| backwards@[backwards@.len() - 1 - j]);
            assert(now =~= seq![next] + turned);
            if rest / 10 > 0 {
                assert(digits_of((rest / 10) as nat).push(next) + turned =~= digits_of(
                    (rest / 10) as nat,
                ) + now);
            } else {
                assert(seq![next] + turned =~= Seq::<char>::empty() + now);
            }
        }
        rest = rest / 10;
    }
    let ghost digits = digits_of(magnitude as nat);
    assert(digits =~= Seq::new(backwards@.len(), |j: int| backwards@[backwards@.len() - 1 - j]));
    let mut text = String::new();
    if n < 0 {
        text.push('-');
    }
    let ghost sign = text@;
    let count = backwards.len();
    let mut k: usize = 0;
    assert(sign + digits.take(0) =~= sign);
    while k < count
        invariant
            k <= count,
            count == backwards@.len(),
            digits.len() == count,
            forall|j: int| 0 <= j < count ==> digits[j] == backwards@[count - 1 - j],
            text@ == sign + digits.take(k as int),
        decreases count - k,
    {
        text.push(backwards[count - 1 - k]);
        assert(sign + digits.take(k + 1) =~= (sign + digits.take(k as int)).push(digits[k as int]));
        k += 1;
    }
    assert(digits.take(count as int) =~= digits);
    assert(sign =~= if n < 0 { seq!['-'] } else { Seq::<char>::empty() });
    assert(Seq::<char>::empty() + digits =~= digits);
    text
}

} // verus!
