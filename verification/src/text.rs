//! Strings as sequences of characters.
use vstd::prelude::*;
use vstd::string::*;

verus! {

/// Whether two strings are the same.
pub fn str_eq(a: &str, b: &str) -> (r: bool)
    ensures
        r == (a@ == b@),
{
    a.to_owned() == b.to_owned()
}

/// The characters of a string.
pub fn chars_of(s: &str) -> (r: Vec<char>)
    ensures
        r@ == s@,
{
    let mut out: Vec<char> = Vec::new();
    for c in it: s.chars()
        invariant
            out@ == s@.subrange(0, it.index() as int),
            it.seq() == s@,
    {
        out.push(c);
        proof {
            assert(out@ =~= s@.subrange(0, it.index() + 1));
        }
    }
    proof {
        assert(out@ =~= s@);
    }
    out
}

/// `String::push`: claimed to append the character.
#[verifier::external_body]
fn push_char(s: &mut String, c: char)
    ensures
        final(s)@ == old(s)@.push(c),
{
    s.push(c)
}

/// The string made of some characters.
pub fn string_of(chars: &Vec<char>) -> (r: String)
    ensures
        r@ == chars@,
{
    let mut out = String::new();
    let mut i: usize = 0;
    while i < chars.len()
        invariant
            i <= chars.len(),
            out@ == chars@.subrange(0, i as int),
        decreases chars.len() - i,
    {
        push_char(&mut out, chars[i]);
        i = i + 1;
        proof {
            assert(out@ =~= chars@.subrange(0, i as int));
        }
    }
    proof {
        assert(out@ =~= chars@);
    }
    out
}

/// `needle` stands in `hay` at place `i`.
pub open spec fn occurs_at(hay: Seq<char>, needle: Seq<char>, i: int) -> bool {
    0 <= i && i + needle.len() <= hay.len() && hay.subrange(i, i + needle.len()) == needle
}

/// `needle` stands somewhere in `hay`.
pub open spec fn occurs(hay: Seq<char>, needle: Seq<char>) -> bool {
    exists|i: int| occurs_at(hay, needle, i)
}

fn matches_at(hay: &Vec<char>, needle: &Vec<char>, at: usize) -> (r: bool)
    requires
        at + needle@.len() <= hay@.len(),
    ensures
        r == occurs_at(hay@, needle@, at as int),
{
    let mut k: usize = 0;
    while k < needle.len()
        invariant
            at + needle.len() <= hay.len(),
            k <= needle.len(),
            forall|j: int| 0 <= j < k ==> hay@[at + j] == #[trigger] needle@[j],
        decreases needle@.len() - k,
    {
        if hay[at + k] != needle[k] {
            proof {
                assert(hay@.subrange(at as int, at + needle@.len())[k as int] != needle@[k as int]);
            }
            return false;
        }
        k = k + 1;
    }
    proof {
        assert(hay@.subrange(at as int, at + needle@.len()) =~= needle@);
    }
    true
}

/// Whether `needle` stands somewhere in `hay`.
pub fn contains_str(hay: &str, needle: &str) -> (r: bool)
    ensures
        r == occurs(hay@, needle@),
{
    let h = chars_of(hay);
    let n = chars_of(needle);
    if n.len() > h.len() {
        return false;
    }
    let last: usize = h.len() - n.len();
    let mut i: usize = 0;
    while i <= last
        invariant
            h@ == hay@,
            n@ == needle@,
            last == h@.len() - n@.len(),
            i <= last + 1,
            forall|j: int| 0 <= j < i ==> !occurs_at(h@, n@, j),
        decreases last + 1 - i,
    {
        if matches_at(&h, &n, i) {
            return true;
        }
        if i == last {
            return false;
        }
        i = i + 1;
    }
    false
}

/// A letter from A to Z in lower case; any other character as it is.
pub open spec fn lower_char(c: char) -> char {
    if 'A' <= c <= 'Z' {
        (c as u32 + 32) as char
    } else {
        c
    }
}

/// A text with the letters from A to Z in lower case.
pub open spec fn lower(s: Seq<char>) -> Seq<char> {
    Seq::new(s.len(), |i: int| lower_char(s[i]))
}

fn lower_one(c: char) -> (r: char)
    ensures
        r == lower_char(c),
{
    if 'A' <= c && c <= 'Z' {
        let v: u8 = c as u8;
        (v + 32) as char
    } else {
        c
    }
}

/// A text with the letters from A to Z in lower case.
pub fn to_lower(s: &str) -> (r: String)
    ensures
        r@ == lower(s@),
{
    let chars = chars_of(s);
    let mut out: Vec<char> = Vec::new();
    let mut i: usize = 0;
    while i < chars.len()
        invariant
            i <= chars@.len(),
            chars@ == s@,
            out@.len() == i,
            forall|k: int| 0 <= k < i ==> #[trigger] out@[k] == lower_char(s@[k]),
        decreases chars@.len() - i,
    {
        out.push(lower_one(chars[i]));
        i = i + 1;
    }
    proof {
        assert(out@ =~= lower(s@));
    }
    string_of(&out)
}

/// Lowering twice is lowering once.
pub proof fn law_lower_is_idempotent(s: Seq<char>)
    ensures
        lower(lower(s)) == lower(s),
{
    assert(lower(lower(s)) =~= lower(s));
}

// ─── Order ──────────────────────────────────────────────────────────────────

/// From place `i` on, `a` comes before `b` in dictionary order.
pub open spec fn less_from(a: Seq<char>, b: Seq<char>, i: int) -> bool
    decreases b.len() - i,
{
    if i >= b.len() {
        false
    } else if i >= a.len() {
        true
    } else if a[i] != b[i] {
        a[i] < b[i]
    } else {
        less_from(a, b, i + 1)
    }
}

/// `a` comes before `b` in dictionary order.
pub open spec fn less(a: Seq<char>, b: Seq<char>) -> bool {
    less_from(a, b, 0)
}

/// Whether `a` comes before `b` in dictionary order.
pub fn str_less(a: &str, b: &str) -> (r: bool)
    ensures
        r == less(a@, b@),
{
    let x = chars_of(a);
    let y = chars_of(b);
    let mut i: usize = 0;
    while i < x.len() && i < y.len() && x[i] == y[i]
        invariant
            x@ == a@,
            y@ == b@,
            i <= x@.len(),
            i <= y@.len(),
            less_from(a@, b@, i as int) == less(a@, b@),
        decreases x@.len() - i,
    {
        i = i + 1;
    }
    if i >= y.len() {
        false
    } else if i >= x.len() {
        true
    } else {
        x[i] < y[i]
    }
}

proof fn lemma_less_total(a: Seq<char>, b: Seq<char>, i: int)
    requires
        0 <= i <= a.len(),
        i <= b.len(),
        a.take(i) == b.take(i),
    ensures
        less_from(a, b, i) || less_from(b, a, i) || a == b,
        !(less_from(a, b, i) && less_from(b, a, i)),
        a == b ==> !less_from(a, b, i),
    decreases a.len() - i,
{
    if i < a.len() && i < b.len() {
        if a[i] == b[i] {
            assert(a.take(i + 1) =~= a.take(i).push(a[i]));
            assert(b.take(i + 1) =~= b.take(i).push(b[i]));
            lemma_less_total(a, b, i + 1);
        } else {
            assert(a[i] < b[i] || b[i] < a[i]);
        }
    } else if i == a.len() && i == b.len() {
        assert(a =~= a.take(i));
        assert(b =~= b.take(i));
    }
}

proof fn lemma_less_transitive(a: Seq<char>, b: Seq<char>, c: Seq<char>, i: int)
    requires
        0 <= i,
        less_from(a, b, i),
        less_from(b, c, i),
    ensures
        less_from(a, c, i),
    decreases b.len() - i,
{
    if i < a.len() && i < b.len() && i < c.len() && a[i] == b[i] && b[i] == c[i] {
        lemma_less_transitive(a, b, c, i + 1);
    }
}

/// Dictionary order is a strict total order: of two different texts exactly
/// one comes first, and it passes on.
pub proof fn law_less_is_a_total_order(a: Seq<char>, b: Seq<char>, c: Seq<char>)
    ensures
        !less(a, a),
        less(a, b) || less(b, a) || a == b,
        !(less(a, b) && less(b, a)),
        less(a, b) && less(b, c) ==> less(a, c),
{
    assert(a.take(0) =~= b.take(0));
    lemma_less_total(a, b, 0);
    lemma_less_total(a, a, 0);
    if less(a, b) && less(b, c) {
        lemma_less_transitive(a, b, c, 0);
    }
}

/// The texts of some strings.
pub open spec fn texts_of(list: Seq<String>) -> Seq<Seq<char>> {
    Seq::new(list.len(), |i: int| list[i]@)
}

/// The texts stand in strict dictionary order.
pub open spec fn ascending(list: Seq<Seq<char>>) -> bool {
    forall|i: int, j: int| 0 <= i < j < list.len() ==> less(#[trigger] list[i], #[trigger] list[j])
}

/// Strings in dictionary order, each once.
pub fn sorted_unique(list: &Vec<String>) -> (r: Vec<String>)
    ensures
        ascending(texts_of(r@)),
        forall|t: Seq<char>| #[trigger] texts_of(r@).contains(t) <==> texts_of(list@).contains(t),
{
    let mut out: Vec<String> = Vec::new();
    let mut i: usize = 0;
    while i < list.len()
        invariant
            i <= list@.len(),
            ascending(texts_of(out@)),
            forall|t: Seq<char>| #[trigger]
                texts_of(out@).contains(t) <==> texts_of(list@).take(i as int).contains(t),
        decreases list@.len() - i,
    {
        let ghost before = texts_of(out@);
        let x = &list[i];
        let mut k: usize = 0;
        while k < out.len() && str_less(out[k].as_str(), x.as_str())
            invariant
                k <= out@.len(),
                before == texts_of(out@),
                forall|j: int| 0 <= j < k ==> less(#[trigger] before[j], x@),
            decreases out@.len() - k,
        {
            k = k + 1;
        }
        let known = k < out.len() && out[k] == *x;
        if !known {
            out.insert(k, x.clone());
        }
        proof {
            let after = texts_of(out@);
            if known {
                assert(before[k as int] == x@);
                assert(after =~= before);
            } else {
                assert(after =~= before.insert(k as int, x@));
                lemma_insert_ascending(before, k as int, x@);
            }
            assert forall|t: Seq<char>| #[trigger] after.contains(t) implies texts_of(list@).take(
                i + 1,
            ).contains(t) by {
                let p = choose|p: int| 0 <= p < after.len() && after[p] == t;
                let taken = texts_of(list@).take(i + 1);
                if t == x@ {
                    assert(taken[i as int] == t);
                } else {
                    let q = if known || p < k {
                        p
                    } else {
                        p - 1
                    };
                    assert(before[q] == t);
                    assert(before.contains(t));
                    let had = texts_of(list@).take(i as int);
                    let z = choose|z: int| 0 <= z < had.len() && had[z] == t;
                    assert(taken[z] == t);
                }
            }
            assert forall|t: Seq<char>|
                texts_of(list@).take(i + 1).contains(t) implies #[trigger] after.contains(t) by {
                let taken = texts_of(list@).take(i + 1);
                let z = choose|z: int| 0 <= z < taken.len() && taken[z] == t;
                if z == i {
                    assert(after[k as int] == t);
                } else {
                    assert(texts_of(list@).take(i as int)[z] == t);
                    assert(texts_of(list@).take(i as int).contains(t));
                    assert(before.contains(t));
                    let q = choose|q: int| 0 <= q < before.len() && before[q] == t;
                    let p = if known || q < k {
                        q
                    } else {
                        q + 1
                    };
                    assert(after[p] == t);
                }
            }
        }
        i = i + 1;
    }
    proof {
        assert(texts_of(list@).take(list@.len() as int) =~= texts_of(list@));
    }
    out
}

proof fn lemma_insert_ascending(list: Seq<Seq<char>>, k: int, x: Seq<char>)
    requires
        ascending(list),
        0 <= k <= list.len(),
        forall|j: int| 0 <= j < k ==> less(#[trigger] list[j], x),
        k < list.len() ==> !less(list[k], x) && list[k] != x,
    ensures
        ascending(list.insert(k, x)),
{
    let after = list.insert(k, x);
    assert forall|i: int, j: int| 0 <= i < j < after.len() implies less(
        #[trigger] after[i],
        #[trigger] after[j],
    ) by {
        if i < k && j < k {
            assert(less(list[i], list[j]));
        } else if i < k && j == k {
            assert(less(list[i], x));
        } else if i < k {
            assert(less(list[i], list[j - 1]));
        } else if i == k {
            law_less_is_a_total_order(list[k], x, x);
            if j > k + 1 {
                assert(less(list[k], list[j - 1]));
                law_less_is_a_total_order(x, list[k], list[j - 1]);
            }
        } else {
            assert(less(list[i - 1], list[j - 1]));
        }
    }
}

/// Two lists in strict dictionary order with the same members are the same.
pub proof fn law_sorted_lists_are_unique(a: Seq<Seq<char>>, b: Seq<Seq<char>>)
    requires
        ascending(a),
        ascending(b),
        forall|t: Seq<char>| #[trigger] a.contains(t) <==> b.contains(t),
    ensures
        a == b,
    decreases a.len(),
{
    if a.len() == 0 {
        if b.len() > 0 {
            assert(b.contains(b[0]));
            assert(a.contains(b[0]));
        }
        assert(a =~= b);
    } else {
        assert(a.contains(a[0]));
        assert(b.contains(a[0]));
        let p = choose|p: int| 0 <= p < b.len() && b[p] == a[0];
        assert(b.contains(b[0]));
        assert(a.contains(b[0]));
        let q = choose|q: int| 0 <= q < a.len() && a[q] == b[0];
        law_less_is_a_total_order(a[0], b[0], b[0]);
        assert(a[0] == b[0]) by {
            if p > 0 && q > 0 {
                assert(less(b[0], b[p]));
                assert(less(a[0], a[q]));
            }
        }
        let x = a.skip(1);
        let y = b.skip(1);
        assert forall|t: Seq<char>| #[trigger] x.contains(t) <==> y.contains(t) by {
            if x.contains(t) {
                let i = choose|i: int| 0 <= i < x.len() && x[i] == t;
                assert(a[i + 1] == t);
                assert(less(a[0], a[i + 1]));
                law_less_is_a_total_order(t, t, t);
                assert(a.contains(t));
                assert(b.contains(t));
                let j = choose|j: int| 0 <= j < b.len() && b[j] == t;
                assert(j > 0);
                assert(y[j - 1] == t);
            }
            if y.contains(t) {
                let i = choose|i: int| 0 <= i < y.len() && y[i] == t;
                assert(b[i + 1] == t);
                assert(less(b[0], b[i + 1]));
                law_less_is_a_total_order(t, t, t);
                assert(b.contains(t));
                assert(a.contains(t));
                let j = choose|j: int| 0 <= j < a.len() && a[j] == t;
                assert(j > 0);
                assert(x[j - 1] == t);
            }
        }
        law_sorted_lists_are_unique(x, y);
        assert(a =~= seq![a[0]] + x);
        assert(b =~= seq![b[0]] + y);
    }
}

// ─── Parts ──────────────────────────────────────────────────────────────────

/// Whether a text starts with another.
pub fn starts_with(s: &str, prefix: &str) -> (r: bool)
    ensures
        r == occurs_at(s@, prefix@, 0),
{
    let h = chars_of(s);
    let n = chars_of(prefix);
    n.len() <= h.len() && matches_at(&h, &n, 0)
}

/// A text without a suffix it ends in.
pub open spec fn without_suffix(s: Seq<char>, suffix: Seq<char>) -> Option<Seq<char>> {
    if occurs_at(s, suffix, s.len() - suffix.len()) {
        Some(s.take(s.len() - suffix.len()))
    } else {
        None
    }
}

fn prefix_of(chars: &Vec<char>, n: usize) -> (r: Vec<char>)
    requires
        n <= chars@.len(),
    ensures
        r@ == chars@.take(n as int),
{
    let mut out: Vec<char> = Vec::new();
    let mut i: usize = 0;
    while i < n
        invariant
            i <= n <= chars@.len(),
            out@ == chars@.take(i as int),
        decreases n - i,
    {
        out.push(chars[i]);
        i = i + 1;
        proof {
            assert(out@ =~= chars@.take(i as int));
        }
    }
    out
}

/// A text without a suffix it ends in.
pub fn strip_suffix(s: &str, suffix: &str) -> (r: Option<String>)
    ensures
        (match r {
            Some(t) => Some(t@),
            None => None,
        }) == without_suffix(s@, suffix@),
{
    let h = chars_of(s);
    let n = chars_of(suffix);
    if n.len() > h.len() {
        return None;
    }
    let at: usize = h.len() - n.len();
    if matches_at(&h, &n, at) {
        Some(string_of(&prefix_of(&h, at)))
    } else {
        None
    }
}

/// What stands before the first place of a character, at or after `from`; the
/// whole text where it does not occur.
pub open spec fn until(s: Seq<char>, c: char, from: int) -> Seq<char>
    decreases s.len() - from,
{
    if from >= s.len() || s[from] == c {
        s.take(from)
    } else {
        until(s, c, from + 1)
    }
}

/// What stands before the first place of a character.
pub fn before_char(s: &str, c: char) -> (r: String)
    ensures
        r@ == until(s@, c, 0),
{
    let h = chars_of(s);
    let mut i: usize = 0;
    while i < h.len() && h[i] != c
        invariant
            h@ == s@,
            i <= h@.len(),
            until(s@, c, i as int) == until(s@, c, 0),
        decreases h@.len() - i,
    {
        i = i + 1;
    }
    string_of(&prefix_of(&h, i))
}

/// A text without the leading copies of a character.
pub open spec fn trimmed(s: Seq<char>, c: char) -> Seq<char>
    decreases s.len(),
{
    if s.len() > 0 && s[0] == c {
        trimmed(s.skip(1), c)
    } else {
        s
    }
}

/// A text without the leading copies of a character.
pub fn trim_start(s: &str, c: char) -> (r: String)
    ensures
        r@ == trimmed(s@, c),
{
    let h = chars_of(s);
    let mut i: usize = 0;
    proof {
        assert(s@.skip(0) =~= s@);
    }
    while i < h.len() && h[i] == c
        invariant
            h@ == s@,
            i <= h@.len(),
            trimmed(s@.skip(i as int), c) == trimmed(s@, c),
        decreases h@.len() - i,
    {
        proof {
            assert(s@.skip(i as int).skip(1) =~= s@.skip(i + 1));
        }
        i = i + 1;
    }
    let mut out: Vec<char> = Vec::new();
    let mut k: usize = i;
    while k < h.len()
        invariant
            i <= k <= h@.len(),
            out@ == h@.subrange(i as int, k as int),
        decreases h@.len() - k,
    {
        out.push(h[k]);
        k = k + 1;
        proof {
            assert(out@ =~= h@.subrange(i as int, k as int));
        }
    }
    proof {
        assert(out@ =~= s@.skip(i as int));
    }
    string_of(&out)
}

// ─── Decimals ───────────────────────────────────────────────────────────────

/// The digit of a value below ten.
pub open spec fn decimal_char(d: int) -> char {
    (48 + d) as char
}

/// A number in decimal.
pub open spec fn decimal_digits(n: nat) -> Seq<char>
    decreases n,
{
    if n < 10 {
        seq![decimal_char(n as int)]
    } else {
        decimal_digits(n / 10).push(decimal_char((n % 10) as int))
    }
}

/// A signed number in decimal.
pub open spec fn decimal_text(n: int) -> Seq<char> {
    if n < 0 {
        seq!['-'] + decimal_digits((-n) as nat)
    } else {
        decimal_digits(n as nat)
    }
}

fn digits_of(n: u64) -> (r: Vec<char>)
    ensures
        r@ == decimal_digits(n as nat),
    decreases n,
{
    let d: u8 = (n % 10) as u8;
    if n < 10 {
        let mut out: Vec<char> = Vec::new();
        out.push((48 + d) as char);
        proof {
            assert(out@ =~= decimal_digits(n as nat));
        }
        out
    } else {
        let mut out = digits_of(n / 10);
        out.push((48 + d) as char);
        out
    }
}

/// A number in decimal.
pub fn decimal_u64(n: u64) -> (r: String)
    ensures
        r@ == decimal_text(n as int),
{
    string_of(&digits_of(n))
}

/// A signed number in decimal.
pub fn decimal_i64(n: i64) -> (r: String)
    ensures
        r@ == decimal_text(n as int),
{
    if n >= 0 {
        return decimal_u64(n as u64);
    }
    let wide: i128 = -(n as i128);
    let digits = digits_of(wide as u64);
    let mut out: Vec<char> = Vec::new();
    out.push('-');
    let mut i: usize = 0;
    while i < digits.len()
        invariant
            i <= digits@.len(),
            out@ == seq!['-'] + digits@.take(i as int),
        decreases digits@.len() - i,
    {
        out.push(digits[i]);
        i = i + 1;
        proof {
            assert(out@ =~= seq!['-'] + digits@.take(i as int));
        }
    }
    proof {
        assert(digits@.take(digits@.len() as int) =~= digits@);
    }
    string_of(&out)
}

/// Texts joined by a separator.
pub open spec fn joined(list: Seq<Seq<char>>, sep: Seq<char>) -> Seq<char>
    decreases list.len(),
{
    if list.len() == 0 {
        Seq::empty()
    } else if list.len() == 1 {
        list[0]
    } else {
        joined(list.drop_last(), sep) + sep + list.last()
    }
}

/// Texts joined by a separator.
pub fn join(list: &Vec<String>, sep: &str) -> (r: String)
    ensures
        r@ == joined(texts_of(list@), sep@),
{
    let mut out = String::new();
    let mut i: usize = 0;
    let ghost all = texts_of(list@);
    while i < list.len()
        invariant
            i <= list@.len(),
            all == texts_of(list@),
            out@ == joined(all.take(i as int), sep@),
        decreases list@.len() - i,
    {
        proof {
            assert(all.take(i + 1).drop_last() =~= all.take(i as int));
            assert(all.take(i + 1).last() == list@[i as int]@);
        }
        if i > 0 {
            out.append(sep);
        }
        out.append(list[i].as_str());
        proof {
            assert(out@ =~= joined(all.take(i + 1), sep@));
        }
        i = i + 1;
    }
    proof {
        assert(all.take(all.len() as int) =~= all);
    }
    out
}

/// Lower case changes capital letters to the small ones 32 places on and leaves
/// every other character.
pub proof fn law_lower_case_changes_capitals_alone(s: Seq<char>, i: int)
    requires
        0 <= i < s.len(),
    ensures
        lower(s).len() == s.len(),
        65 <= s[i] as int <= 90 ==> lower(s)[i] as int == s[i] as int + 32,
        !(65 <= s[i] as int <= 90) ==> lower(s)[i] == s[i],
{
}

/// The first character in which two texts differ orders them; a text comes
/// before every longer one that starts with it, and not before itself.
pub proof fn law_the_first_difference_orders(a: Seq<char>, b: Seq<char>, k: int)
    requires
        0 <= k <= a.len(),
        k <= b.len(),
        forall|i: int| 0 <= i < k ==> #[trigger] a[i] == b[i],
    ensures
        k < a.len() && k < b.len() && a[k] != b[k] ==> (less(a, b) <==> (a[k] as int) < b[k] as int),
        k == a.len() && k < b.len() ==> less(a, b),
        k == b.len() ==> !less(a, b),
{
    lemma_less_skips(a, b, 0, k);
}

proof fn lemma_less_skips(a: Seq<char>, b: Seq<char>, from: int, k: int)
    requires
        0 <= from <= k <= a.len(),
        k <= b.len(),
        forall|i: int| 0 <= i < k ==> #[trigger] a[i] == b[i],
    ensures
        less_from(a, b, from) == less_from(a, b, k),
    decreases k - from,
{
    if from < k {
        assert(a[from] == b[from]);
        lemma_less_skips(a, b, from + 1, k);
    }
}

/// A suffix is taken off exactly where the text ends with it: what is left and
/// the suffix make the text.
pub proof fn law_a_suffix_is_what_a_text_ends_with(s: Seq<char>, t: Seq<char>, suffix: Seq<char>)
    ensures
        without_suffix(s, suffix) == Some(t) <==> s == t + suffix,
        without_suffix(s, suffix) matches Some(u) ==> s == u + suffix,
{
    if s == t + suffix {
        assert(s.subrange(s.len() - suffix.len(), s.len() as int) =~= suffix);
        assert(s.take(s.len() - suffix.len()) =~= t);
    }
    if let Some(u) = without_suffix(s, suffix) {
        let n = s.len() - suffix.len();
        assert(s.subrange(n, n + suffix.len()) == suffix);
        assert(s =~= s.take(n) + s.subrange(n, s.len() as int));
    }
}

/// The part before a character ends at its first occurrence, or is the whole
/// text.
pub proof fn law_the_part_before_a_character(s: Seq<char>, c: char, k: int)
    requires
        0 <= k <= s.len(),
        forall|i: int| 0 <= i < k ==> #[trigger] s[i] != c,
        k < s.len() ==> s[k] == c,
    ensures
        until(s, c, 0) == s.take(k),
{
    lemma_until(s, c, 0, k);
}

proof fn lemma_until(s: Seq<char>, c: char, from: int, k: int)
    requires
        0 <= from <= k <= s.len(),
        forall|i: int| 0 <= i < k ==> #[trigger] s[i] != c,
        k < s.len() ==> s[k] == c,
    ensures
        until(s, c, from) == s.take(k),
    decreases k - from,
{
    if from < k {
        assert(s[from] != c);
        lemma_until(s, c, from + 1, k);
    }
}

/// Trimming takes off the leading run of a character and nothing more.
pub proof fn law_trimming_takes_the_leading_run(s: Seq<char>, c: char)
    ensures
        ({
            let t = trimmed(s, c);
            let n = s.len() - t.len();
            &&& 0 <= n && t == s.skip(n)
            &&& forall|i: int| 0 <= i < n ==> #[trigger] s[i] == c
            &&& t.len() > 0 ==> t[0] != c
        }),
    decreases s.len(),
{
    if s.len() > 0 && s[0] == c {
        law_trimming_takes_the_leading_run(s.skip(1), c);
        let t = trimmed(s, c);
        let n = s.len() - t.len();
        assert(s.skip(1).skip(n - 1) =~= s.skip(n));
        assert forall|i: int| 0 <= i < n implies #[trigger] s[i] == c by {
            if i > 0 {
                assert(s.skip(1)[i - 1] == c);
            }
        }
    } else {
        assert(s.skip(0) =~= s);
    }
}

/// The number that decimal digits stand for.
pub open spec fn number_of(digits: Seq<char>) -> int
    decreases digits.len(),
{
    if digits.len() == 0 {
        0
    } else {
        number_of(digits.drop_last()) * 10 + (digits.last() as int - 48)
    }
}

/// A number's digits stand for it: digits from 0 to 9, no zero in front of
/// another digit. A negative number is written with a minus before them.
pub proof fn law_decimals_read_back(n: nat)
    ensures
        ({
            let d = decimal_digits(n);
            &&& number_of(d) == n && d.len() > 0
            &&& forall|i: int| 0 <= i < d.len() ==> 48 <= (#[trigger] d[i]) as int <= 57
            &&& d.len() > 1 ==> d[0] as int != 48
        }),
        decimal_text(n as int) == decimal_digits(n),
        n > 0 ==> decimal_text(-(n as int)) == seq!['-'] + decimal_digits(n),
    decreases n,
{
    reveal_with_fuel(number_of, 2);
    if n >= 10 {
        law_decimals_read_back(n / 10);
        let d = decimal_digits(n);
        let h = decimal_digits(n / 10);
        assert(d.drop_last() =~= h);
        assert forall|i: int| 0 <= i < d.len() implies 48 <= (#[trigger] d[i]) as int <= 57 by {
            if i < h.len() {
                assert(d[i] == h[i]);
            }
        }
        assert(d[0] == h[0]);
        if h.len() == 1 {
            assert(h.drop_last() =~= Seq::empty());
            assert(number_of(h) == h.last() as int - 48);
        }
    } else {
        let d = decimal_digits(n);
        assert(d.drop_last() =~= Seq::empty());
    }
}

/// Joining puts the separator between the texts and nowhere else.
pub proof fn law_joining_separates(list: Seq<Seq<char>>, sep: Seq<char>, last: Seq<char>)
    ensures
        joined(Seq::empty(), sep).len() == 0,
        joined(seq![last], sep) == last,
        list.len() > 0 ==> joined(list.push(last), sep) == joined(list, sep) + sep + last,
{
    assert(list.push(last).drop_last() =~= list);
}

} // verus!
