use vstd::prelude::*;
use vstd::multiset::Multiset;
use vstd::string::*;

use crate::crates::VendoredCrate;
use crate::version::Epoch;

verus! {

pub open spec fn is_digit(c: char) -> bool {
    '0' <= c && c <= '9'
}

/// The number that a run of decimal digits spells.
pub open spec fn digits_value(s: Seq<char>) -> int
    decreases s.len(),
{
    if s.len() == 0 {
        0
    } else {
        digits_value(s.drop_last()) * 10 + (s.last() as int - '0' as int)
    }
}

/// A number as the naming convention writes it: decimal digits, with no
/// leading zero unless the number is zero, and fitting in 64 bits.
pub open spec fn decimal(s: Seq<char>) -> Option<u64> {
    if s.len() > 0 && (forall|i: int| 0 <= i < s.len() ==> is_digit(#[trigger] s[i])) && (s[0]
        == '0' ==> s.len() == 1) && digits_value(s) <= u64::MAX {
        Some(digits_value(s) as u64)
    } else {
        None
    }
}

/// The epoch that a version directory names: `v<m>` for major `m >= 1`,
/// `v0_<m>` for minor `m >= 1`, `v0_0_<p>` for patch `p`.
pub open spec fn epoch_of_dir(s: Seq<char>) -> Option<Epoch> {
    if s.len() < 1 || s[0] != 'v' {
        None
    } else {
        let b = s.subrange(1, s.len() as int);
        if b.len() >= 4 && b.subrange(0, 4) == seq!['0', '_', '0', '_'] {
            match decimal(b.subrange(4, b.len() as int)) {
                Some(p) => Some(Epoch::Patch(p)),
                None => None,
            }
        } else if b.len() >= 2 && b.subrange(0, 2) == seq!['0', '_'] {
            match decimal(b.subrange(2, b.len() as int)) {
                Some(m) => if m > 0 {
                    Some(Epoch::Minor(m))
                } else {
                    None
                },
                None => None,
            }
        } else {
            match decimal(b) {
                Some(m) => if m > 0 {
                    Some(Epoch::Major(m))
                } else {
                    None
                },
                None => None,
            }
        }
    }
}

proof fn lemma_digits_monotone(s: Seq<char>, n: int)
    requires
        0 <= n <= s.len(),
        forall|i: int| 0 <= i < s.len() ==> is_digit(#[trigger] s[i]),
    ensures
        digits_value(s.subrange(0, n)) <= digits_value(s),
        0 <= digits_value(s.subrange(0, n)),
    decreases s.len() - n,
{
    if n < s.len() {
        lemma_digits_monotone(s, n + 1);
        let t = s.subrange(0, n + 1);
        assert(t.drop_last() =~= s.subrange(0, n));
    } else {
        assert(s.subrange(0, n) =~= s);
        lemma_digits_nonneg(s);
    }
}

proof fn lemma_digits_nonneg(s: Seq<char>)
    requires
        forall|i: int| 0 <= i < s.len() ==> is_digit(#[trigger] s[i]),
    ensures
        0 <= digits_value(s),
    decreases s.len(),
{
    if s.len() > 0 {
        assert forall|i: int| 0 <= i < s.drop_last().len() implies is_digit(#[trigger] s.drop_last()[i]) by {
            assert(s.drop_last()[i] == s[i]);
        }
        lemma_digits_nonneg(s.drop_last());
    }
}

/// The number written from position `lo` to the end of `s`.
pub fn parse_decimal(s: &str, lo: usize) -> (r: Option<u64>)
    requires
        lo <= s@.len(),
    ensures
        r == decimal(s@.subrange(lo as int, s@.len() as int)),
{
    let ghost t = s@.subrange(lo as int, s@.len() as int);
    let n = s.unicode_len();
    if lo >= n {
        return None;
    }
    let mut v: u64 = 0;
    let mut i: usize = lo;
    while i < n
        invariant
            n == s@.len(),
            lo < n,
            lo <= i <= n,
            t == s@.subrange(lo as int, n as int),
            forall|k: int| 0 <= k < i - lo ==> is_digit(#[trigger] t[k]),
            v as int == digits_value(t.subrange(0, i - lo)),
        decreases n - i,
    {
        let c = s.get_char(i);
        if c < '0' || c > '9' {
            assert(!is_digit(t[i - lo]));
            return None;
        }
        let d = (c as u32 - '0' as u32) as u64;
        proof {
            let u = t.subrange(0, i - lo + 1);
            assert(u.drop_last() =~= t.subrange(0, i - lo));
            assert(u.last() == c);
        }
        if v > (u64::MAX - d) / 10 {
            proof {
                assert(digits_value(t.subrange(0, i - lo + 1)) > u64::MAX);
                if forall|k: int| 0 <= k < t.len() ==> is_digit(#[trigger] t[k]) {
                    lemma_digits_monotone(t, i - lo + 1);
                }
            }
            return None;
        }
        v = v * 10 + d;
        i = i + 1;
    }
    assert(t.subrange(0, n - lo) =~= t);
    let first = s.get_char(lo);
    if first == '0' && n - lo > 1 {
        return None;
    }
    Some(v)
}

/// Whether the characters of `s` from `lo` on begin with those of `p`.
fn has_at(s: &str, lo: usize, p: &str) -> (r: bool)
    requires
        lo <= s@.len(),
    ensures
        r == (s@.len() - lo >= p@.len() && s@.subrange(lo as int, lo + p@.len()) == p@),
{
    let n = s.unicode_len();
    let m = p.unicode_len();
    if n - lo < m {
        return false;
    }
    let mut k: usize = 0;
    while k < m
        invariant
            n == s@.len(),
            m == p@.len(),
            lo + m <= n,
            k <= m,
            forall|j: int| 0 <= j < k ==> s@[lo + j] == p@[j],
        decreases m - k,
    {
        if s.get_char(lo + k) != p.get_char(k) {
            assert(s@.subrange(lo as int, lo + m)[k as int] != p@[k as int]);
            return false;
        }
        k = k + 1;
    }
    assert(s@.subrange(lo as int, lo + m) =~= p@);
    true
}

/// The epoch that a version directory's name stands for, if it follows the
/// naming convention.
pub fn parse_epoch_dir(s: &str) -> (r: Option<Epoch>)
    ensures
        r == epoch_of_dir(s@),
{
    let n = s.unicode_len();
    if n < 1 || s.get_char(0) != 'v' {
        return None;
    }
    let ghost b = s@.subrange(1, n as int);
    proof {
        reveal_strlit("0_0_");
        reveal_strlit("0_");
        assert("0_0_"@ =~= seq!['0', '_', '0', '_']);
        assert("0_"@ =~= seq!['0', '_']);
    }
    if has_at(s, 1, "0_0_") {
        proof {
            assert(b.subrange(0, 4) =~= s@.subrange(1, 5));
            assert(b.subrange(4, b.len() as int) =~= s@.subrange(5, n as int));
        }
        match parse_decimal(s, 5) {
            Some(p) => Some(Epoch::Patch(p)),
            None => None,
        }
    } else if has_at(s, 1, "0_") {
        proof {
            if b.len() >= 4 {
                assert(b.subrange(0, 4) =~= s@.subrange(1, 5));
            }
            assert(b.subrange(0, 2) =~= s@.subrange(1, 3));
            assert(b.subrange(2, b.len() as int) =~= s@.subrange(3, n as int));
        }
        match parse_decimal(s, 3) {
            Some(m) => if m > 0 {
                Some(Epoch::Minor(m))
            } else {
                None
            },
            None => None,
        }
    } else {
        proof {
            if b.len() >= 4 {
                assert(b.subrange(0, 4) =~= s@.subrange(1, 5));
            }
            if b.len() >= 2 {
                assert(b.subrange(0, 2) =~= s@.subrange(1, 3));
            }
        }
        match parse_decimal(s, 1) {
            Some(m) => if m > 0 {
                Some(Epoch::Major(m))
            } else {
                None
            },
            None => None,
        }
    }
}

/// The vendored crate that a crate directory and one of its version
/// directories stand for, if the version directory follows the convention.
pub fn inventory_entry(crate_dir: &str, version_dir: &str) -> (r: Option<VendoredCrate>)
    ensures
        match r {
            Some(c) => epoch_of_dir(version_dir@) == Some(c.epoch) && c.name@ == crate_dir@,
            None => epoch_of_dir(version_dir@) is None,
        },
{
    match parse_epoch_dir(version_dir) {
        Some(epoch) => Some(VendoredCrate { name: crate_dir.to_owned(), epoch }),
        None => None,
    }
}

/// The character of a decimal digit.
pub open spec fn digit_char(d: int) -> char {
    if d == 0 { '0' } else if d == 1 { '1' } else if d == 2 { '2' } else if d == 3 { '3' }
    else if d == 4 { '4' } else if d == 5 { '5' } else if d == 6 { '6' } else if d == 7 { '7' }
    else if d == 8 { '8' } else { '9' }
}

/// A number in decimal, without leading zeros.
pub open spec fn decimal_digits(n: nat) -> Seq<char>
    decreases n,
{
    if n < 10 {
        seq![digit_char(n as int)]
    } else {
        decimal_digits(n / 10).push(digit_char((n % 10) as int))
    }
}

/// The name of the version directory for an epoch.
pub open spec fn epoch_dir_name(e: Epoch) -> Seq<char> {
    match e {
        Epoch::Major(m) => seq!['v'] + decimal_digits(m as nat),
        Epoch::Minor(m) => seq!['v', '0', '_'] + decimal_digits(m as nat),
        Epoch::Patch(p) => seq!['v', '0', '_', '0', '_'] + decimal_digits(p as nat),
    }
}

proof fn lemma_digit_char(d: int)
    requires
        0 <= d < 10,
    ensures
        is_digit(digit_char(d)),
        digit_char(d) as int - '0' as int == d,
        d > 0 ==> digit_char(d) != '0',
{
}

proof fn lemma_decimal_digits(n: nat)
    ensures
        decimal_digits(n).len() > 0,
        forall|i: int| 0 <= i < decimal_digits(n).len() ==> is_digit(#[trigger] decimal_digits(n)[i]),
        digits_value(decimal_digits(n)) == n,
        n > 0 ==> decimal_digits(n)[0] != '0',
        n == 0 ==> decimal_digits(n).len() == 1,
    decreases n,
{
    if n < 10 {
        lemma_digit_char(n as int);
        assert(decimal_digits(n).drop_last() =~= Seq::<char>::empty());
        assert(digits_value(decimal_digits(n)) == digits_value(Seq::<char>::empty()) * 10 + (
        digit_char(n as int) as int - '0' as int));
    } else {
        lemma_decimal_digits(n / 10);
        lemma_digit_char((n % 10) as int);
        assert((n / 10) * 10 + n % 10 == n) by (nonlinear_arith);
        let s = decimal_digits(n);
        assert(s.drop_last() =~= decimal_digits(n / 10));
        assert(s.last() == digit_char((n % 10) as int));
        assert(digits_value(s) == digits_value(decimal_digits(n / 10)) * 10 + (digit_char(
            (n % 10) as int,
        ) as int - '0' as int));
        assert(s[0] == decimal_digits(n / 10)[0]);
    }
}

proof fn lemma_decimal_of_digits(n: u64)
    ensures
        decimal(decimal_digits(n as nat)) == Some(n),
{
    lemma_decimal_digits(n as nat);
}

/// Reading back the name of an epoch's version directory gives the epoch.
pub proof fn lemma_epoch_dir_round_trip(e: Epoch)
    requires
        crate::version::epoch_wf(e),
    ensures
        epoch_of_dir(epoch_dir_name(e)) == Some(e),
{
    let s = epoch_dir_name(e);
    let b = s.subrange(1, s.len() as int);
    match e {
        Epoch::Major(m) => {
            lemma_decimal_of_digits(m);
            lemma_decimal_digits(m as nat);
            assert(b =~= decimal_digits(m as nat));
            if b.len() >= 2 {
                assert(b.subrange(0, 2) != seq!['0', '_']) by {
                    assert(b.subrange(0, 2)[0] == b[0]);
                }
            }
            if b.len() >= 4 {
                assert(b.subrange(0, 4) != seq!['0', '_', '0', '_']) by {
                    assert(b.subrange(0, 4)[0] == b[0]);
                }
            }
        },
        Epoch::Minor(m) => {
            lemma_decimal_of_digits(m);
            lemma_decimal_digits(m as nat);
            let d = decimal_digits(m as nat);
            assert(b.subrange(0, 2) =~= seq!['0', '_']);
            assert(b.subrange(2, b.len() as int) =~= d);
            if b.len() >= 4 {
                assert(b.subrange(0, 4) != seq!['0', '_', '0', '_']) by {
                    assert(b.subrange(0, 4)[2] == d[0]);
                }
            }
        },
        Epoch::Patch(p) => {
            lemma_decimal_of_digits(p);
            assert(b.subrange(0, 4) =~= seq!['0', '_', '0', '_']);
            assert(b.subrange(4, b.len() as int) =~= decimal_digits(p as nat));
        },
    }
}

fn digit_str(d: u64) -> (r: &'static str)
    requires
        d < 10,
    ensures
        r@ == seq![digit_char(d as int)],
{
    proof {
        reveal_strlit("0");
        reveal_strlit("1");
        reveal_strlit("2");
        reveal_strlit("3");
        reveal_strlit("4");
        reveal_strlit("5");
        reveal_strlit("6");
        reveal_strlit("7");
        reveal_strlit("8");
        reveal_strlit("9");
    }
    let r = if d == 0 { "0" } else if d == 1 { "1" } else if d == 2 { "2" } else if d == 3 { "3" }
    else if d == 4 { "4" } else if d == 5 { "5" } else if d == 6 { "6" } else if d == 7 { "7" }
    else if d == 8 { "8" } else { "9" };
    assert(r@ =~= seq![digit_char(d as int)]);
    r
}

/// A number written in decimal.
pub fn decimal_string(n: u64) -> (r: String)
    ensures
        r@ == decimal_digits(n as nat),
    decreases n,
{
    if n < 10 {
        String::from_str(digit_str(n))
    } else {
        let mut s = decimal_string(n / 10);
        s.append(digit_str(n % 10));
        s
    }
}

/// The name of the version directory for an epoch, such as `v1` or `v0_3`.
pub fn epoch_dir(e: Epoch) -> (r: String)
    ensures
        r@ == epoch_dir_name(e),
{
    proof {
        reveal_strlit("v");
        reveal_strlit("v0_");
        reveal_strlit("v0_0_");
    }
    let (mut s, n) = match e {
        Epoch::Major(m) => (String::from_str("v"), m),
        Epoch::Minor(m) => (String::from_str("v0_"), m),
        Epoch::Patch(p) => (String::from_str("v0_0_"), p),
    };
    let digits = decimal_string(n);
    s.append(digits.as_str());
    proof {
        match e {
            Epoch::Major(_) => { assert("v"@ =~= seq!['v']); },
            Epoch::Minor(_) => { assert("v0_"@ =~= seq!['v', '0', '_']); },
            Epoch::Patch(_) => { assert("v0_0_"@ =~= seq!['v', '0', '_', '0', '_']); },
        }
    }
    s
}

/// The directory of a vendored crate's build file, relative to the
/// vendored root: `<name>/<version directory>`.
pub fn build_path(c: &VendoredCrate) -> (r: String)
    ensures
        r@ == c.name@ + seq!['/'] + epoch_dir_name(c.epoch),
{
    proof {
        reveal_strlit("/");
        assert("/"@ =~= seq!['/']);
    }
    let mut s = String::from_str(c.name.as_str());
    s.append("/");
    let e = epoch_dir(c.epoch);
    s.append(e.as_str());
    s
}

/// `a` comes no later than `b` in character order.
pub open spec fn name_le(a: Seq<char>, b: Seq<char>) -> bool
    decreases a.len(),
{
    if a.len() == 0 {
        true
    } else if b.len() == 0 {
        false
    } else if a[0] != b[0] {
        a[0] < b[0]
    } else {
        name_le(a.drop_first(), b.drop_first())
    }
}

/// Epochs in version order: patch buckets, then minor, then major ones.
pub open spec fn epoch_le(a: Epoch, b: Epoch) -> bool {
    match (a, b) {
        (Epoch::Patch(x), Epoch::Patch(y)) => x <= y,
        (Epoch::Patch(_), _) => true,
        (Epoch::Minor(x), Epoch::Minor(y)) => x <= y,
        (Epoch::Minor(_), Epoch::Major(_)) => true,
        (Epoch::Major(x), Epoch::Major(y)) => x <= y,
        _ => false,
    }
}

/// Vendored crates by name, then by epoch.
pub open spec fn crate_le(a: VendoredCrate, b: VendoredCrate) -> bool {
    if a.name@ == b.name@ {
        epoch_le(a.epoch, b.epoch)
    } else {
        name_le(a.name@, b.name@)
    }
}

pub(crate) proof fn lemma_name_le_total(a: Seq<char>, b: Seq<char>)
    ensures
        name_le(a, b) || name_le(b, a),
        name_le(a, b) && name_le(b, a) ==> a == b,
    decreases a.len(),
{
    if a.len() > 0 && b.len() > 0 && a[0] == b[0] {
        lemma_name_le_total(a.drop_first(), b.drop_first());
        if a.drop_first() == b.drop_first() {
            assert(a =~= seq![a[0]] + a.drop_first());
            assert(b =~= seq![b[0]] + b.drop_first());
        }
    }
    if a.len() == 0 && b.len() == 0 {
        assert(a =~= b);
    }
}

pub(crate) proof fn lemma_name_le_trans(a: Seq<char>, b: Seq<char>, c: Seq<char>)
    requires
        name_le(a, b),
        name_le(b, c),
    ensures
        name_le(a, c),
    decreases a.len(),
{
    if a.len() > 0 && b.len() > 0 && c.len() > 0 && a[0] == b[0] && b[0] == c[0] {
        lemma_name_le_trans(a.drop_first(), b.drop_first(), c.drop_first());
    }
}

proof fn lemma_crate_le_total_trans()
    ensures
        forall|a: VendoredCrate, b: VendoredCrate| crate_le(a, b) || crate_le(b, a),
        forall|a: VendoredCrate, b: VendoredCrate, c: VendoredCrate|
            #[trigger] crate_le(a, b) && #[trigger] crate_le(b, c) ==> crate_le(a, c),
{
    assert forall|a: VendoredCrate, b: VendoredCrate| crate_le(a, b) || crate_le(b, a) by {
        lemma_name_le_total(a.name@, b.name@);
    }
    assert forall|a: VendoredCrate, b: VendoredCrate, c: VendoredCrate|
        #[trigger] crate_le(a, b) && #[trigger] crate_le(b, c) implies crate_le(a, c) by {
        lemma_name_le_total(a.name@, b.name@);
        lemma_name_le_total(b.name@, c.name@);
        lemma_name_le_total(a.name@, c.name@);
        if a.name@ != b.name@ && b.name@ != c.name@ {
            lemma_name_le_trans(a.name@, b.name@, c.name@);
        }
    }
}

/// Whether `x` comes no later than `y` in character order.
pub fn name_le_exec(x: &str, y: &str) -> (r: bool)
    ensures
        r == name_le(x@, y@),
{
    let n = x.unicode_len();
    let m = y.unicode_len();
    let mut i: usize = 0;
    assert(x@.subrange(0, n as int) =~= x@);
    assert(y@.subrange(0, m as int) =~= y@);
    while i < n && i < m
        invariant
            n == x@.len(),
            m == y@.len(),
            i <= n,
            i <= m,
            forall|j: int| 0 <= j < i ==> x@[j] == y@[j],
            name_le(x@, y@) == name_le(x@.subrange(i as int, n as int), y@.subrange(i as int, m as int)),
        decreases n - i,
    {
        let c = x.get_char(i);
        let d = y.get_char(i);
        let ghost xs = x@.subrange(i as int, n as int);
        let ghost ys = y@.subrange(i as int, m as int);
        assert(xs[0] == c && ys[0] == d);
        if c != d {
            return c < d;
        }
        assert(xs.drop_first() =~= x@.subrange(i + 1, n as int));
        assert(ys.drop_first() =~= y@.subrange(i + 1, m as int));
        i = i + 1;
    }
    i >= n
}

/// Whether `a` comes no later than `b` by name and epoch.
pub fn crate_le_exec(a: &VendoredCrate, b: &VendoredCrate) -> (r: bool)
    ensures
        r == crate_le(*a, *b),
{
    if a.name == b.name {
        return match (a.epoch, b.epoch) {
            (Epoch::Patch(x), Epoch::Patch(y)) => x <= y,
            (Epoch::Patch(_), _) => true,
            (Epoch::Minor(x), Epoch::Minor(y)) => x <= y,
            (Epoch::Minor(_), Epoch::Major(_)) => true,
            (Epoch::Major(x), Epoch::Major(y)) => x <= y,
            _ => false,
        };
    }
    name_le_exec(a.name.as_str(), b.name.as_str())
}

/// The vendored crates ordered by name, then by epoch.
pub fn sort_inventory(v: Vec<VendoredCrate>) -> (r: Vec<VendoredCrate>)
    ensures
        r@.to_multiset() == v@.to_multiset(),
        forall|i: int, j: int| 0 <= i < j < r.len() ==> crate_le(#[trigger] r[i], #[trigger] r[j]),
{
    proof {
        lemma_crate_le_total_trans();
    }
    let ghost orig = v@;
    let mut rest = v;
    let mut out: Vec<VendoredCrate> = Vec::new();
    assert(rest@ =~= orig);
    proof {
        lemma_empty_multiset(out@);
    }
    while rest.len() > 0
        invariant
            out@.to_multiset().add(rest@.to_multiset()) == orig.to_multiset(),
            forall|i: int, j: int| 0 <= i < j < out.len() ==> crate_le(#[trigger] out[i], #[trigger] out[j]),
            forall|a: VendoredCrate, b: VendoredCrate| crate_le(a, b) || crate_le(b, a),
            forall|a: VendoredCrate, b: VendoredCrate, c: VendoredCrate|
                #[trigger] crate_le(a, b) && #[trigger] crate_le(b, c) ==> crate_le(a, c),
        decreases rest.len(),
    {
        let ghost before_rest = rest@;
        let x = rest.pop().unwrap();
        assert(before_rest =~= rest@.push(x));
        let mut p: usize = 0;
        while p < out.len() && crate_le_exec(&out[p], &x)
            invariant
                p <= out.len(),
                forall|i: int| 0 <= i < p ==> crate_le(#[trigger] out[i], x),
            decreases out.len() - p,
        {
            p = p + 1;
        }
        let ghost before_out = out@;
        out.insert(p, x);
        proof {
            assert(out@ == before_out.insert(p as int, x));
            vstd::seq_lib::to_multiset_insert(before_out, p as int, x);
            assert forall|i: int, j: int| 0 <= i < j < out.len() implies crate_le(#[trigger] out[i], #[trigger] out[j]) by {
                if j < p {
                    assert(out[i] == before_out[i] && out[j] == before_out[j]);
                } else if j == p {
                    assert(out[i] == before_out[i]);
                } else if i == p {
                    assert(out[j] == before_out[j - 1]);
                    assert(!crate_le(before_out[p as int], x));
                    assert(crate_le(x, before_out[p as int]));
                    if j - 1 > p {
                        assert(crate_le(before_out[p as int], before_out[j - 1]));
                    }
                } else if i < p {
                    assert(out[i] == before_out[i] && out[j] == before_out[j - 1]);
                } else {
                    assert(out[i] == before_out[i - 1] && out[j] == before_out[j - 1]);
                }
            }
            rest@.to_multiset_ensures();
            assert(rest@.push(x).to_multiset() =~= rest@.to_multiset().insert(x));
            assert(before_rest == rest@.push(x));
            assert(before_rest.to_multiset() =~= rest@.to_multiset().insert(x));
            assert(out@.to_multiset() =~= before_out.to_multiset().insert(x));
            assert(out@.to_multiset().add(rest@.to_multiset()) =~= before_out.to_multiset().add(
                before_rest.to_multiset(),
            ));
        }
    }
    proof {
        lemma_empty_multiset(rest@);
    }
    out
}

pub(crate) proof fn lemma_empty_multiset<T>(s: Seq<T>)
    requires
        s.len() == 0,
    ensures
        s.to_multiset() == Multiset::<T>::empty(),
{
    broadcast use vstd::seq_lib::group_to_multiset_ensures;

    assert forall|a: T| s.to_multiset().count(a) == 0 by {
        assert(!s.contains(a));
    }
    assert(s.to_multiset() =~= Multiset::<T>::empty());
}

} // verus!
