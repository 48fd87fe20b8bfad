//! Building strings: appending text and decimal numbers.
use vstd::prelude::*;
use vstd::string::*;

verus! {

/// Appends `t` to `s`.
pub fn push_str(s: &mut String, t: &str)
    ensures
        final(s)@ == old(s)@ + t@,
{
    s.append(t);
}

/// Appends `c` to `s` (`String::push`).
#[verifier::external_body]
pub fn push_char(s: &mut String, c: char)
    ensures
        final(s)@ == old(s)@.push(c),
{
    s.push(c);
}

/// The character of a decimal digit.
pub open spec fn digit_spec(d: nat) -> char {
    if d == 0 {
        '0'
    } else if d == 1 {
        '1'
    } else if d == 2 {
        '2'
    } else if d == 3 {
        '3'
    } else if d == 4 {
        '4'
    } else if d == 5 {
        '5'
    } else if d == 6 {
        '6'
    } else if d == 7 {
        '7'
    } else if d == 8 {
        '8'
    } else {
        '9'
    }
}

/// The decimal digits of `n`, most significant first.
pub open spec fn decimal(n: nat) -> Seq<char>
    decreases n,
{
    if n < 10 {
        seq![digit_spec(n)]
    } else {
        decimal(n / 10).push(digit_spec(n % 10))
    }
}

fn digit(d: usize) -> (r: char)
    requires
        d < 10,
    ensures
        r == digit_spec(d as nat),
{
    if d == 0 {
        '0'
    } else if d == 1 {
        '1'
    } else if d == 2 {
        '2'
    } else if d == 3 {
        '3'
    } else if d == 4 {
        '4'
    } else if d == 5 {
        '5'
    } else if d == 6 {
        '6'
    } else if d == 7 {
        '7'
    } else if d == 8 {
        '8'
    } else {
        '9'
    }
}

/// Appends the decimal digits of `n` to `out`.
pub fn push_decimal(out: &mut String, n: usize)
    ensures
        final(out)@ == old(out)@ + decimal(n as nat),
    decreases n,
{
    if n >= 10 {
        push_decimal(out, n / 10);
        push_char(out, digit(n % 10));
        proof {
            assert(decimal(n as nat) == decimal((n / 10) as nat).push(digit_spec((n % 10) as nat)));
            assert(out@ =~= old(out)@ + decimal(n as nat));
        }
    } else {
        push_char(out, digit(n));
        proof {
            assert(out@ =~= old(out)@ + decimal(n as nat));
        }
    }
}

/// The decimal rendering of `n`.
pub fn to_decimal(n: usize) -> (r: String)
    ensures
        r@ == decimal(n as nat),
{
    let mut out = String::new();
    push_decimal(&mut out, n);
    proof {
        assert(out@ =~= decimal(n as nat));
    }
    out
}

/// Character order on texts: the first character where they differ decides,
/// and a proper prefix comes before the longer text.
pub open spec fn text_less(a: Seq<char>, b: Seq<char>) -> bool
    decreases a.len(),
{
    if b.len() == 0 {
        false
    } else if a.len() == 0 {
        true
    } else if a[0] != b[0] {
        a[0] < b[0]
    } else {
        text_less(a.drop_first(), b.drop_first())
    }
}

/// The order of sorted texts: character order, or, `by_length`, shorter texts
/// first and character order among texts of one length.
pub open spec fn text_before(by_length: bool, a: Seq<char>, b: Seq<char>) -> bool {
    if by_length && a.len() != b.len() {
        a.len() < b.len()
    } else {
        text_less(a, b)
    }
}

proof fn lemma_text_less_irreflexive(a: Seq<char>)
    ensures
        !text_less(a, a),
    decreases a.len(),
{
    if a.len() > 0 {
        lemma_text_less_irreflexive(a.drop_first());
    }
}

proof fn lemma_text_less_transitive(a: Seq<char>, b: Seq<char>, c: Seq<char>)
    requires
        text_less(a, b),
        text_less(b, c),
    ensures
        text_less(a, c),
    decreases a.len(),
{
    if a.len() > 0 && b.len() > 0 && c.len() > 0 && a[0] == b[0] && b[0] == c[0] {
        lemma_text_less_transitive(a.drop_first(), b.drop_first(), c.drop_first());
    }
}

proof fn lemma_text_less_total(a: Seq<char>, b: Seq<char>)
    ensures
        a == b || text_less(a, b) || text_less(b, a),
    decreases a.len(),
{
    if a.len() == 0 || b.len() == 0 {
        if a.len() == 0 && b.len() == 0 {
            assert(a =~= b);
        }
    } else if a[0] == b[0] {
        lemma_text_less_total(a.drop_first(), b.drop_first());
        if a.drop_first() == b.drop_first() {
            assert(a.drop_first().len() == b.drop_first().len());
            assert forall|i: int| 0 <= i < a.len() implies a[i] == b[i] by {
                if i > 0 {
                    assert(a[i] == a.drop_first()[i - 1]);
                    assert(b[i] == b.drop_first()[i - 1]);
                }
            }
            assert(a =~= b);
        }
    }
}

/// `text_before` is a strict order that ranks any two different texts.
pub proof fn lemma_text_before_order(by_length: bool, a: Seq<char>, b: Seq<char>, c: Seq<char>)
    ensures
        !text_before(by_length, a, a),
        text_before(by_length, a, b) && text_before(by_length, b, c) ==> text_before(by_length, a, c),
        a == b || text_before(by_length, a, b) || text_before(by_length, b, a),
{
    lemma_text_less_irreflexive(a);
    lemma_text_less_total(a, b);
    if text_before(by_length, a, b) && text_before(by_length, b, c) {
        if !(by_length && (a.len() != b.len() || b.len() != c.len())) {
            lemma_text_less_transitive(a, b, c);
        }
    }
}

/// Whether `a` comes before `b` in character order.
pub fn str_less_than(a: &String, b: &String) -> (r: bool)
    ensures
        r == text_less(a@, b@),
{
    text_before_exec(false, a.as_str(), b.as_str())
}

/// Whether `a` comes before `b` in the order `text_before(by_length, ..)`.
pub fn text_before_exec(by_length: bool, a: &str, b: &str) -> (r: bool)
    ensures
        r == text_before(by_length, a@, b@),
{
    let la = a.unicode_len();
    let lb = b.unicode_len();
    if by_length && la != lb {
        return la < lb;
    }
    let mut i: usize = 0;
    proof {
        assert(a@.skip(0) =~= a@);
        assert(b@.skip(0) =~= b@);
    }
    while i < la && i < lb
        invariant
            la == a@.len(),
            lb == b@.len(),
            i <= la,
            i <= lb,
            text_less(a@, b@) == text_less(a@.skip(i as int), b@.skip(i as int)),
            text_before(by_length, a@, b@) == text_less(a@, b@),
        decreases la - i,
    {
        let ca = a.get_char(i);
        let cb = b.get_char(i);
        if ca != cb {
            proof {
                assert(a@.skip(i as int)[0] == ca);
                assert(b@.skip(i as int)[0] == cb);
            }
            return ca < cb;
        }
        proof {
            assert(a@.skip(i as int).drop_first() =~= a@.skip(i + 1));
            assert(b@.skip(i as int).drop_first() =~= b@.skip(i + 1));
        }
        i = i + 1;
    }
    proof {
        assert(a@.skip(i as int).len() == la - i);
        assert(b@.skip(i as int).len() == lb - i);
    }
    la < lb
}

/// A value that sorts by a text.
pub trait TextKey {
    spec fn text_key(&self) -> Seq<char>;

    fn key_str(&self) -> (r: &str)
        ensures
            r@ == self.text_key(),
    ;
}

impl TextKey for String {
    open spec fn text_key(&self) -> Seq<char> {
        self@
    }

    fn key_str(&self) -> (r: &str) {
        self.as_str()
    }
}

/// No element comes after one that it should precede.
pub open spec fn sorted_by_text<T: TextKey>(by_length: bool, s: Seq<T>) -> bool {
    forall|i: int, j: int|
        0 <= i < j < s.len() ==> !text_before(by_length, #[trigger] s[j].text_key(), #[trigger] s[i].text_key())
}

/// Sorts `v` by the texts of its elements, in the order
/// `text_before(by_length, ..)`; elements with equal texts keep their order.
pub fn sort_by_text<T: TextKey>(by_length: bool, v: &mut Vec<T>)
    ensures
        sorted_by_text(by_length, final(v)@),
        final(v)@.to_multiset() == old(v)@.to_multiset(),
        final(v)@.len() == old(v)@.len(),
{
    let n = v.len();
    if n == 0 {
        return;
    }
    let mut a: usize = 1;
    while a < n
        invariant
            v@.len() == n,
            1 <= a <= n,
            v@.to_multiset() == old(v)@.to_multiset(),
            forall|i: int, j: int|
                0 <= i < j < a ==> !text_before(by_length, #[trigger] v@[j].text_key(), #[trigger] v@[i].text_key()),
        decreases n - a,
    {
        let mut b: usize = a;
        while b > 0
            invariant
                v@.len() == n,
                a < n,
                b <= a,
                v@.to_multiset() == old(v)@.to_multiset(),
                forall|i: int, j: int|
                    0 <= i < j < b ==> !text_before(by_length, #[trigger] v@[j].text_key(), #[trigger] v@[i].text_key()),
                forall|i: int, j: int|
                    b < i < j <= a ==> !text_before(by_length, #[trigger] v@[j].text_key(), #[trigger] v@[i].text_key()),
                forall|i: int, j: int|
                    0 <= i < b < j <= a ==> !text_before(by_length, #[trigger] v@[j].text_key(), #[trigger] v@[i].text_key()),
                forall|j: int| b < j <= a ==> text_before(by_length, v@[b as int].text_key(), #[trigger] v@[j].text_key()),
            ensures
                b == 0 || !text_before(by_length, v@[b as int].text_key(), v@[b - 1].text_key()),
            decreases b,
        {
            let before = text_before_exec(by_length, v[b].key_str(), v[b - 1].key_str());
            if !before {
                break;
            }
            let ghost w = v@;
            let x = v.remove(b);
            v.insert(b - 1, x);
            proof {
                assert(v@ =~= w.remove(b as int).insert(b - 1, w[b as int]));
                vstd::seq_lib::to_multiset_remove(w, b as int);
                vstd::seq_lib::to_multiset_insert(w.remove(b as int), b - 1, w[b as int]);
                vstd::seq_lib::to_multiset_contains(w, w[b as int]);
                broadcast use vstd::multiset::group_multiset_axioms;
                assert(w.to_multiset().remove(w[b as int]).insert(w[b as int]) =~= w.to_multiset());
            }
            b = b - 1;
        }
        proof {
            assert forall|i: int, j: int| 0 <= i < j <= a implies !text_before(
                by_length,
                #[trigger] v@[j].text_key(),
                #[trigger] v@[i].text_key(),
            ) by {
                if j == b && i < b {
                    let x = v@[b as int].text_key();
                    let y = v@[b - 1].text_key();
                    let z = v@[i].text_key();
                    lemma_text_before_order(by_length, x, z, y);
                    lemma_text_before_order(by_length, z, x, y);
                    lemma_text_before_order(by_length, x, y, z);
                    lemma_text_before_order(by_length, y, x, z);
                    lemma_text_before_order(by_length, z, y, x);
                    lemma_text_before_order(by_length, y, z, x);
                } else if i == b && j > b {
                    lemma_text_before_order(by_length, v@[j].text_key(), v@[i].text_key(), v@[i].text_key());
                    lemma_text_before_order(by_length, v@[i].text_key(), v@[j].text_key(), v@[i].text_key());
                }
            }
        }
        a = a + 1;
    }
}

} // verus!
