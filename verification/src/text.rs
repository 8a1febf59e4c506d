//! Text building blocks: decimal numbers, the byte-wise order of strings,
//! sorting and joining.
use vstd::prelude::*;
use vstd::relations::{sorted_by, total_ordering};

verus! {

broadcast use vstd::seq_lib::group_to_multiset_ensures;

/// The character of a decimal digit.
pub open spec fn digit_char(d: nat) -> char {
    if d == 0 {
        '0'
    } else if d == 1 {
        '1'
    } else if d == 2 {
        '2'
    } else if d == 3 {
        '3'
    } else if d == 4 {
        '4'
    } else if d == 5 {
        '5'
    } else if d == 6 {
        '6'
    } else if d == 7 {
        '7'
    } else if d == 8 {
        '8'
    } else {
        '9'
    }
}

/// The decimal notation of `n`, without sign or leading zeros.
pub open spec fn decimal(n: nat) -> Seq<char>
    decreases n,
{
    if n < 10 {
        seq![digit_char(n)]
    } else {
        decimal(n / 10).push(digit_char(n % 10))
    }
}

/// The number that a string of decimal digits reads as, the most
/// significant digit first.
pub open spec fn read_decimal(s: Seq<char>) -> int
    decreases s.len(),
{
    if s.len() == 0 {
        0
    } else {
        read_decimal(s.drop_last()) * 10 + ((s.last() as int) - ('0' as int))
    }
}

/// The decimal notation of a number is made of digits only, has no leading
/// zero (but for zero itself), and reads back as the number.
pub proof fn lemma_decimal_reads_back(n: nat)
    ensures
        read_decimal(decimal(n)) == n,
        decimal(n).len() >= 1,
        forall|i: int|
            0 <= i < decimal(n).len() ==> ('0' as int) <= (#[trigger] decimal(n)[i] as int) <= (
            '9' as int),
        n > 0 ==> decimal(n)[0] != '0',
    decreases n,
{
    let d = decimal(n);
    if n < 10 {
        assert(d.drop_last() =~= Seq::<char>::empty());
        assert(read_decimal(Seq::<char>::empty()) == 0);
        assert((digit_char(n) as int) - ('0' as int) == n);
        assert(read_decimal(d) == read_decimal(d.drop_last()) * 10 + ((d.last() as int) - ('0' as int)));
    } else {
        lemma_decimal_reads_back(n / 10);
        let h = decimal(n / 10);
        assert(d.drop_last() =~= h);
        assert(d.last() == digit_char(n % 10));
        assert((digit_char(n % 10) as int) - ('0' as int) == n % 10);
        assert((n / 10) * 10 + n % 10 == n) by (nonlinear_arith);
        assert(read_decimal(d) == read_decimal(h) * 10 + ((d.last() as int) - ('0' as int)));
        assert forall|i: int| 0 <= i < d.len() implies ('0' as int) <= (#[trigger] d[i] as int)
            <= ('9' as int) by {
            if i < h.len() {
                assert(d[i] == h[i]);
            }
        }
        assert(d[0] == h[0]);
    }
}

/// Appends one decimal digit.
fn append_digit(s: &mut String, d: u64)
    requires
        d < 10,
    ensures
        final(s)@ == old(s)@.push(digit_char(d as nat)),
{
    proof {
        reveal_strlit("0");
        reveal_strlit("1");
        reveal_strlit("2");
        reveal_strlit("3");
        reveal_strlit("4");
        reveal_strlit("5");
        reveal_strlit("6");
        reveal_strlit("7");
        reveal_strlit("8");
        reveal_strlit("9");
    }
    let digit: &str = if d == 0 {
        "0"
    } else if d == 1 {
        "1"
    } else if d == 2 {
        "2"
    } else if d == 3 {
        "3"
    } else if d == 4 {
        "4"
    } else if d == 5 {
        "5"
    } else if d == 6 {
        "6"
    } else if d == 7 {
        "7"
    } else if d == 8 {
        "8"
    } else {
        "9"
    };
    s.append(digit);
    assert(final(s)@ =~= old(s)@.push(digit_char(d as nat)));
}

/// Appends the decimal notation of `n` to `s`.
pub fn append_decimal(s: &mut String, n: u64)
    ensures
        final(s)@ == old(s)@ + decimal(n as nat),
    decreases n,
{
    if n >= 10 {
        append_decimal(s, n / 10);
    }
    append_digit(s, n % 10);
    assert(final(s)@ =~= old(s)@ + decimal(n as nat));
}

/// Lexicographic order on character sequences, character by character
/// by code point. On the UTF-8 bytes of two strings this is the same
/// order as the byte-wise one, which is how `String` values compare.
pub open spec fn lex_le(a: Seq<char>, b: Seq<char>) -> bool
    decreases a.len(),
{
    if a.len() == 0 {
        true
    } else if b.len() == 0 {
        false
    } else if a[0] != b[0] {
        (a[0] as int) < (b[0] as int)
    } else {
        lex_le(a.drop_first(), b.drop_first())
    }
}

/// `lex_le` as a relation value.
pub open spec fn lex_order() -> spec_fn(Seq<char>, Seq<char>) -> bool {
    |a: Seq<char>, b: Seq<char>| lex_le(a, b)
}

proof fn lemma_lex_reflexive(a: Seq<char>)
    ensures
        lex_le(a, a),
    decreases a.len(),
{
    if a.len() > 0 {
        lemma_lex_reflexive(a.drop_first());
    }
}

proof fn lemma_lex_antisymmetric(a: Seq<char>, b: Seq<char>)
    requires
        lex_le(a, b),
        lex_le(b, a),
    ensures
        a == b,
    decreases a.len(),
{
    if a.len() == 0 {
        assert(b.len() == 0);
        assert(a =~= b);
    } else {
        assert(b.len() > 0);
        assert(a[0] == b[0]);
        lemma_lex_antisymmetric(a.drop_first(), b.drop_first());
        assert(a =~= seq![a[0]] + a.drop_first());
        assert(b =~= seq![b[0]] + b.drop_first());
    }
}

proof fn lemma_lex_transitive(a: Seq<char>, b: Seq<char>, c: Seq<char>)
    requires
        lex_le(a, b),
        lex_le(b, c),
    ensures
        lex_le(a, c),
    decreases a.len(),
{
    if a.len() > 0 && b.len() > 0 && c.len() > 0 {
        if a[0] == b[0] && b[0] == c[0] {
            lemma_lex_transitive(a.drop_first(), b.drop_first(), c.drop_first());
        }
    }
}

proof fn lemma_lex_total(a: Seq<char>, b: Seq<char>)
    ensures
        lex_le(a, b) || lex_le(b, a),
    decreases a.len(),
{
    if a.len() > 0 && b.len() > 0 && a[0] == b[0] {
        lemma_lex_total(a.drop_first(), b.drop_first());
    } else if a.len() > 0 && b.len() > 0 {
        assert(a[0] as int != b[0] as int);
    }
}

/// `lex_le` is a total order.
pub proof fn lemma_lex_order_total()
    ensures
        total_ordering(lex_order()),
{
    let r = lex_order();
    assert forall|a: Seq<char>| #[trigger] r(a, a) by {
        lemma_lex_reflexive(a);
    }
    assert forall|a: Seq<char>, b: Seq<char>| #[trigger] r(a, b) && #[trigger] r(b, a) implies a
        == b by {
        lemma_lex_antisymmetric(a, b);
    }
    assert forall|a: Seq<char>, b: Seq<char>, c: Seq<char>| #[trigger] r(a, b) && #[trigger] r(
        b,
        c,
    ) implies r(a, c) by {
        lemma_lex_transitive(a, b, c);
    }
    assert forall|a: Seq<char>, b: Seq<char>| #[trigger] r(a, b) || #[trigger] r(b, a) by {
        lemma_lex_total(a, b);
    }
}

/// Strings sort character by character: a string comes no later than any
/// string that starts with it, and where two strings first differ, the one
/// with the smaller character there comes first and the other does not.
pub proof fn lemma_lex_order_by_first_difference(a: Seq<char>, b: Seq<char>, k: int)
    requires
        0 <= k <= a.len(),
        k <= b.len(),
        a.take(k) == b.take(k),
    ensures
        k == a.len() ==> lex_le(a, b),
        k < a.len() && k < b.len() && (a[k] as int) < (b[k] as int) ==> lex_le(a, b) && !lex_le(
            b,
            a,
        ),
    decreases k,
{
    if k > 0 {
        assert(a[0] == a.take(k)[0]);
        assert(b[0] == b.take(k)[0]);
        let ta = a.drop_first().take(k - 1);
        let tb = b.drop_first().take(k - 1);
        assert(ta =~= tb) by {
            assert forall|i: int| 0 <= i < k - 1 implies #[trigger] ta[i] == tb[i] by {
                assert(a.take(k)[i + 1] == a[i + 1]);
                assert(b.take(k)[i + 1] == b[i + 1]);
                assert(a.drop_first()[i] == a[i + 1]);
                assert(b.drop_first()[i] == b[i + 1]);
            }
        }
        lemma_lex_order_by_first_difference(a.drop_first(), b.drop_first(), k - 1);
    }
}

proof fn lemma_lex_skip(a: Seq<char>, b: Seq<char>, i: int)
    requires
        0 <= i < a.len(),
        i < b.len(),
        a[i] == b[i],
    ensures
        lex_le(a.skip(i), b.skip(i)) == lex_le(a.skip(i + 1), b.skip(i + 1)),
{
    assert(a.skip(i).drop_first() =~= a.skip(i + 1));
    assert(b.skip(i).drop_first() =~= b.skip(i + 1));
}

/// Whether `a` comes no later than `b` in the order in which strings sort.
pub fn str_le(a: &str, b: &str) -> (r: bool)
    ensures
        r == lex_le(a@, b@),
{
    let la = a.unicode_len();
    let lb = b.unicode_len();
    let mut i: usize = 0;
    assert(a@.skip(0) =~= a@);
    assert(b@.skip(0) =~= b@);
    while i < la && i < lb
        invariant
            la == a@.len(),
            lb == b@.len(),
            i <= la,
            i <= lb,
            lex_le(a@, b@) == lex_le(a@.skip(i as int), b@.skip(i as int)),
        decreases la - i,
    {
        let ca = a.get_char(i);
        let cb = b.get_char(i);
        if ca != cb {
            proof {
                assert(a@.skip(i as int)[0] == ca);
                assert(b@.skip(i as int)[0] == cb);
            }
            return (ca as u32) < (cb as u32);
        }
        proof {
            lemma_lex_skip(a@, b@, i as int);
        }
        i = i + 1;
    }
    i == la
}

/// The views of a sequence of strings.
pub open spec fn views(v: Seq<String>) -> Seq<Seq<char>> {
    v.map_values(|s: String| s@)
}

proof fn lemma_insert_multiset<A>(s: Seq<A>, j: int, x: A)
    requires
        0 <= j <= s.len(),
    ensures
        s.insert(j, x).to_multiset() =~= s.to_multiset().insert(x),
{
    let t = s.insert(j, x);
    assert(t.remove(j) =~= s);
    assert(t[j] == x);
    assert(t.to_multiset().count(x) > 0) by {
        assert(t.contains(x));
    }
}

/// Sorts strings into the order in which `String` values sort.
pub fn sort_strings(v: Vec<String>) -> (r: Vec<String>)
    ensures
        views(r@) == views(v@).sort_by(lex_order()),
{
    let mut r: Vec<String> = Vec::new();
    let n = v.len();
    let mut i: usize = 0;
    while i < n
        invariant
            n == v.len(),
            i <= n,
            sorted_by(views(r@), lex_order()),
            views(r@).to_multiset() == views(v@.take(i as int)).to_multiset(),
        decreases n - i,
    {
        let x = v[i].clone();
        let mut j: usize = 0;
        while j < r.len() && str_le(r[j].as_str(), x.as_str())
            invariant
                j <= r.len(),
                forall|k: int| 0 <= k < j ==> lex_le(#[trigger] r@[k]@, x@),
            decreases r.len() - j,
        {
            j = j + 1;
        }
        let ghost old_r = r@;
        proof {
            lemma_lex_order_total();
        }
        r.insert(j, x);
        proof {
            assert(views(r@) =~= views(old_r).insert(j as int, x@));
            let w = views(r@);
            assert forall|a: int, b: int| 0 <= a < b < w.len() implies #[trigger] lex_le(
                w[a],
                w[b],
            ) by {
                let o = views(old_r);
                if b < j {
                    assert(lex_order()(o[a], o[b]));
                } else if b == j {
                    assert(lex_le(old_r[a]@, x@));
                } else if a == j {
                    // x comes before old_r[j], which comes before old_r[b - 1]
                    assert(!lex_le(old_r[j as int]@, x@));
                    lemma_lex_total(old_r[j as int]@, x@);
                    if b - 1 > j {
                        assert(lex_order()(o[j as int], o[b - 1]));
                        lemma_lex_transitive(x@, old_r[j as int]@, old_r[b - 1]@);
                    }
                } else if a < j {
                    assert(lex_order()(o[a], o[b - 1]));
                } else {
                    assert(lex_order()(o[a - 1], o[b - 1]));
                }
            }
            assert(v@.take(i + 1) =~= v@.take(i as int).push(v@[i as int]));
            assert(views(v@.take(i + 1)) =~= views(v@.take(i as int)).push(x@));
            lemma_insert_multiset(views(old_r), j as int, x@);
        }
        i = i + 1;
    }
    proof {
        assert(v@.take(n as int) =~= v@);
        lemma_lex_order_total();
        views(v@).lemma_sort_by_ensures(lex_order());
        vstd::seq_lib::lemma_sorted_unique(views(r@), views(v@).sort_by(lex_order()), lex_order());
    }
    r
}

/// The parts joined with `sep` between each two neighbours.
pub open spec fn join(parts: Seq<Seq<char>>, sep: Seq<char>) -> Seq<char>
    decreases parts.len(),
{
    if parts.len() == 0 {
        seq![]
    } else if parts.len() == 1 {
        parts[0]
    } else {
        join(parts.drop_last(), sep) + sep + parts.last()
    }
}

/// Every part appears whole in the joined text, at its own place.
pub proof fn lemma_join_contains_each_part(parts: Seq<Seq<char>>, sep: Seq<char>, i: int)
    requires
        0 <= i < parts.len(),
    ensures
        exists|o: int|
            0 <= o && o + parts[i].len() <= join(parts, sep).len() && #[trigger] join(
                parts,
                sep,
            ).subrange(o, o + parts[i].len()) == parts[i],
    decreases parts.len(),
{
    let j = join(parts, sep);
    if parts.len() == 1 {
        assert(j == parts[0]);
        assert(j.subrange(0, parts[i].len() as int) =~= parts[i]);
        let o: int = 0;
        assert(0 <= o && o + parts[i].len() <= j.len() && j.subrange(o, o + parts[i].len())
            == parts[i]);
    } else if i == parts.len() - 1 {
        let head = join(parts.drop_last(), sep) + sep;
        assert(j == head + parts.last());
        let o = head.len() as int;
        assert(j.subrange(o, o + parts[i].len()) =~= parts[i]);
        assert(0 <= o && o + parts[i].len() <= j.len() && j.subrange(o, o + parts[i].len())
            == parts[i]);
    } else {
        let d = parts.drop_last();
        lemma_join_contains_each_part(d, sep, i);
        let jd = join(d, sep);
        assert(d[i] == parts[i]);
        assert(j == jd + sep + parts.last());
        let o = choose|o: int|
            0 <= o && o + d[i].len() <= jd.len() && #[trigger] jd.subrange(o, o + d[i].len())
                == d[i];
        assert(j.subrange(o, o + parts[i].len()) =~= jd.subrange(o, o + d[i].len()));
        assert(0 <= o && o + parts[i].len() <= j.len() && j.subrange(o, o + parts[i].len())
            == parts[i]);
    }
}

/// Appends the strings of `parts`, with `sep` between each two neighbours.
pub fn append_joined(s: &mut String, parts: &Vec<String>, sep: &str)
    ensures
        final(s)@ == old(s)@ + join(views(parts@), sep@),
{
    let n = parts.len();
    let mut i: usize = 0;
    assert(views(parts@).take(0) =~= Seq::<Seq<char>>::empty());
    while i < n
        invariant
            n == parts.len(),
            i <= n,
            s@ == old(s)@ + join(views(parts@).take(i as int), sep@),
        decreases n - i,
    {
        if i > 0 {
            s.append(sep);
        }
        s.append(parts[i].as_str());
        proof {
            let w = views(parts@);
            assert(w.take(i + 1).drop_last() =~= w.take(i as int));
            assert(w.take(i + 1).last() == parts@[i as int]@);
            assert(s@ =~= old(s)@ + join(w.take(i + 1), sep@));
        }
        i = i + 1;
    }
    assert(views(parts@).take(n as int) =~= views(parts@));
}

} // verus!
