//! Strings: order, search, and the names of configured peers.
use vstd::prelude::*;
use vstd::std_specs::iter::IteratorSpec;
use vstd::string::StringExecFns;

verus! {

/// `a` sorts before `b`: at the first character in which they differ it has
/// the lower one, or it is a proper prefix.
pub open spec fn text_before(a: Seq<char>, b: Seq<char>) -> bool
    decreases a.len(),
{
    if b.len() == 0 {
        false
    } else if a.len() == 0 {
        true
    } else if a[0] != b[0] {
        a[0] < b[0]
    } else {
        text_before(a.drop_first(), b.drop_first())
    }
}

/// The first `n` characters of two strings are the same; after them the first
/// string ends and the second does not, or it has the lower character.
pub open spec fn sorts_at(a: Seq<char>, b: Seq<char>, n: int) -> bool {
    &&& 0 <= n <= a.len()
    &&& n < b.len()
    &&& forall|i: int| 0 <= i < n ==> #[trigger] a[i] == b[i]
    &&& n == a.len() || a[n] < b[n]
}

/// A string sorts before another one exactly where there is such a place.
pub proof fn law_text_order(a: Seq<char>, b: Seq<char>)
    ensures
        text_before(a, b) <==> exists|n: int| sorts_at(a, b, n),
    decreases a.len(),
{
    if a.len() > 0 && b.len() > 0 && a[0] == b[0] {
        let (x, y) = (a.drop_first(), b.drop_first());
        law_text_order(x, y);
        if exists|n: int| sorts_at(x, y, n) {
            let n = choose|n: int| sorts_at(x, y, n);
            assert forall|i: int| 0 <= i < n + 1 implies #[trigger] a[i] == b[i] by {
                if i > 0 {
                    assert(x[i - 1] == y[i - 1]);
                }
            }
            assert(n == x.len() || a[n + 1] == x[n]);
            assert(b[n + 1] == y[n]);
            assert(sorts_at(a, b, n + 1));
        }
        if exists|n: int| sorts_at(a, b, n) {
            let n = choose|n: int| sorts_at(a, b, n);
            assert forall|i: int| 0 <= i < n - 1 implies #[trigger] x[i] == y[i] by {
                assert(a[i + 1] == b[i + 1]);
            }
            assert(sorts_at(x, y, n - 1));
        }
    } else {
        if text_before(a, b) {
            assert(sorts_at(a, b, 0));
        }
        if exists|n: int| sorts_at(a, b, n) {
            let n = choose|n: int| sorts_at(a, b, n);
            if n > 0 {
                assert(a[0] == b[0]);
            }
        }
    }
}

/// No two strings sort before each other.
pub proof fn lemma_text_order_asymmetric(a: Seq<char>, b: Seq<char>)
    ensures
        text_before(a, b) ==> !text_before(b, a),
    decreases a.len(),
{
    if a.len() > 0 && b.len() > 0 && a[0] == b[0] {
        lemma_text_order_asymmetric(a.drop_first(), b.drop_first());
    }
}

/// Of two different strings one sorts before the other.
pub proof fn lemma_text_order_total(a: Seq<char>, b: Seq<char>)
    ensures
        a == b || text_before(a, b) || text_before(b, a),
    decreases a.len(),
{
    if a.len() > 0 && b.len() > 0 && a[0] == b[0] {
        lemma_text_order_total(a.drop_first(), b.drop_first());
        assert(a =~= seq![a[0]] + a.drop_first());
        assert(b =~= seq![b[0]] + b.drop_first());
    } else if a.len() == 0 && b.len() == 0 {
        assert(a =~= b);
    }
}

/// The order of strings is transitive.
pub proof fn lemma_text_order_transitive(a: Seq<char>, b: Seq<char>, c: Seq<char>)
    requires
        text_before(a, b),
        text_before(b, c),
    ensures
        text_before(a, c),
    decreases a.len(),
{
    if a.len() > 0 && b.len() > 0 && c.len() > 0 && a[0] == b[0] && b[0] == c[0] {
        lemma_text_order_transitive(a.drop_first(), b.drop_first(), c.drop_first());
    }
}

/// How one string sorts relative to another.
#[derive(Clone, Copy, PartialEq, Eq, Structural)]
pub enum Sorts {
    Before,
    Same,
    After,
}

/// The characters of a string.
pub fn characters(s: &str) -> (r: Vec<char>)
    ensures
        r@ == s@,
{
    let mut out: Vec<char> = Vec::new();
    let iter = s.chars();
    let ghost all = iter.remaining();
    for c in it: iter
        invariant
            it.seq() == all,
            out@ == all.take(it.index() as int),
    {
        out.push(c);
    }
    assert(out@ =~= s@);
    out
}

/// How `a` sorts relative to `b`.
pub fn sorts(a: &str, b: &str) -> (r: Sorts)
    ensures
        r == Sorts::Before <==> text_before(a@, b@),
        r == Sorts::Same <==> a@ == b@,
        r == Sorts::After <==> text_before(b@, a@),
{
    let x = characters(a);
    let y = characters(b);
    let mut i: usize = 0;
    proof {
        lemma_text_order_asymmetric(a@, b@);
        lemma_text_order_asymmetric(a@, a@);
        assert(a@.skip(0) =~= a@);
        assert(b@.skip(0) =~= b@);
    }
    while i < x.len() && i < y.len() && x[i] == y[i]
        invariant
            x@ == a@,
            y@ == b@,
            i <= x@.len(),
            i <= y@.len(),
            a@.take(i as int) == b@.take(i as int),
            text_before(a@, b@) == text_before(a@.skip(i as int), b@.skip(i as int)),
            text_before(b@, a@) == text_before(b@.skip(i as int), a@.skip(i as int)),
        decreases x@.len() - i,
    {
        proof {
            let n = i as int;
            assert(a@.skip(n).drop_first() =~= a@.skip(n + 1));
            assert(b@.skip(n).drop_first() =~= b@.skip(n + 1));
            assert(a@.take(n + 1) =~= a@.take(n).push(a@[n]));
            assert(b@.take(n + 1) =~= b@.take(n).push(b@[n]));
        }
        i = i + 1;
    }
    if i == x.len() && i == y.len() {
        assert(a@.take(i as int) =~= a@);
        assert(b@.take(i as int) =~= b@);
        Sorts::Same
    } else if i == x.len() {
        Sorts::Before
    } else if i == y.len() {
        Sorts::After
    } else if x[i] < y[i] {
        Sorts::Before
    } else {
        Sorts::After
    }
}

/// `text` holds `part` as consecutive characters.
pub open spec fn holds_part(text: Seq<char>, part: Seq<char>) -> bool {
    exists|i: int|
        0 <= i && i + part.len() <= text.len() && #[trigger] text.subrange(i, i + part.len())
            == part
}

/// Whether `text` holds `part` from its character `at` on.
fn holds_at(text: &Vec<char>, part: &Vec<char>, at: usize) -> (r: bool)
    requires
        at + part@.len() <= text.len(),
    ensures
        r == (text@.subrange(at as int, at + part@.len()) == part@),
{
    let mut j: usize = 0;
    while j < part.len()
        invariant
            at + part@.len() <= text.len(),
            j <= part@.len(),
            forall|k: int| 0 <= k < j ==> text@[at + k] == #[trigger] part@[k],
        decreases part@.len() - j,
    {
        if text[at + j] != part[j] {
            assert(text@.subrange(at as int, at + part@.len())[j as int] != part@[j as int]);
            return false;
        }
        j = j + 1;
    }
    assert(text@.subrange(at as int, at + part@.len()) =~= part@);
    true
}

/// Whether `text` holds `part` as consecutive characters.
pub fn contains(text: &str, part: &str) -> (r: bool)
    ensures
        r == holds_part(text@, part@),
{
    let x = characters(text);
    let y = characters(part);
    if x.len() < y.len() {
        return false;
    }
    let last: usize = x.len() - y.len();
    let mut i: usize = 0;
    while i <= last
        invariant
            x@ == text@,
            y@ == part@,
            last + y@.len() == x.len(),
            i <= last + 1,
            forall|k: int|
                0 <= k < i ==> #[trigger] text@.subrange(k, k + part@.len()) != part@,
        decreases last + 1 - i,
    {
        if holds_at(&x, &y, i) {
            return true;
        }
        if i == last {
            return false;
        }
        i = i + 1;
    }
    false
}

/// The decimal digits of a number.
pub open spec fn decimal(n: nat) -> Seq<char>
    decreases n,
{
    if n < 10 {
        seq![digit(n)]
    } else {
        decimal(n / 10).push(digit(n % 10))
    }
}

/// The character of a digit.
pub open spec fn digit(d: nat) -> char {
    ('0' as nat + d) as char
}

/// The string of one digit.
fn digit_text(d: usize) -> (r: &'static str)
    requires
        d < 10,
    ensures
        r@ == seq![digit(d as nat)],
{
    proof {
        reveal_strlit("0");
        reveal_strlit("1");
        reveal_strlit("2");
        reveal_strlit("3");
        reveal_strlit("4");
        reveal_strlit("5");
        reveal_strlit("6");
        reveal_strlit("7");
        reveal_strlit("8");
        reveal_strlit("9");
    }
    let r = match d {
        0 => "0",
        1 => "1",
        2 => "2",
        3 => "3",
        4 => "4",
        5 => "5",
        6 => "6",
        7 => "7",
        8 => "8",
        _ => "9",
    };
    assert(r@ =~= seq![digit(d as nat)]);
    r
}

/// A number in decimal digits.
pub fn decimal_text(n: usize) -> (r: String)
    ensures
        r@ == decimal(n as nat),
    decreases n,
{
    if n < 10 {
        digit_text(n).to_owned()
    } else {
        let mut r = decimal_text(n / 10);
        r.append(digit_text(n % 10));
        assert(r@ =~= decimal(n as nat));
        r
    }
}

/// The name of a peer: its host, a colon and its port.
pub open spec fn endpoint(host: Seq<char>, port: nat) -> Seq<char> {
    host.push(':') + decimal(port)
}

/// The number that decimal digits spell.
pub open spec fn digits_value(text: Seq<char>) -> nat
    decreases text.len(),
{
    if text.len() == 0 {
        0
    } else {
        digits_value(text.drop_last()) * 10 + (text.last() as nat - '0' as nat) as nat
    }
}

/// `text` is a number in decimal digits: it has nothing but digits, at least
/// one, does not start with a needless zero, and spells the number.
pub open spec fn is_decimal(text: Seq<char>, n: nat) -> bool {
    &&& text.len() > 0
    &&& forall|i: int| 0 <= i < text.len() ==> '0' <= #[trigger] text[i] && text[i] <= '9'
    &&& text[0] == '0' ==> text.len() == 1
    &&& digits_value(text) == n
}

/// A number has exactly one text in decimal digits, and that is `decimal`.
pub proof fn law_decimal(n: nat, text: Seq<char>)
    ensures
        is_decimal(text, n) <==> text == decimal(n),
    decreases n, text.len(),
{
    lemma_decimal(n);
    if is_decimal(text, n) {
        let last = text.last();
        let front = text.drop_last();
        assert('0' <= text[text.len() - 1] && text[text.len() - 1] <= '9');
        if text.len() == 1 {
            assert(digits_value(front) == 0);
            assert(text =~= decimal(n));
        } else {
            assert(front.len() > 0);
            assert forall|i: int| 0 <= i < front.len() implies '0' <= #[trigger] front[i]
                && front[i] <= '9' by {
                assert(front[i] == text[i]);
            }
            assert(front[0] == text[0]);
            lemma_leading_digit(front);
            assert(n / 10 == digits_value(front));
            assert(n >= 10);
            law_decimal(n / 10, front);
            assert(text =~= decimal(n));
        }
    }
}

/// Digits that do not start with a zero spell a number above zero.
proof fn lemma_leading_digit(text: Seq<char>)
    requires
        text.len() > 0,
        text[0] != '0',
        forall|i: int| 0 <= i < text.len() ==> '0' <= #[trigger] text[i] && text[i] <= '9',
    ensures
        digits_value(text) > 0,
    decreases text.len(),
{
    assert('0' <= text[text.len() - 1]);
    if text.len() > 1 {
        let front = text.drop_last();
        assert forall|i: int| 0 <= i < front.len() implies '0' <= #[trigger] front[i] && front[i]
            <= '9' by {
            assert(front[i] == text[i]);
        }
        lemma_leading_digit(front);
    }
}

proof fn lemma_decimal(n: nat)
    ensures
        is_decimal(decimal(n), n),
        n > 0 ==> decimal(n)[0] != '0',
    decreases n,
{
    let text = decimal(n);
    if n < 10 {
        assert(digits_value(text.drop_last()) == 0);
    } else {
        lemma_decimal(n / 10);
        assert(text.drop_last() =~= decimal(n / 10));
        assert forall|i: int| 0 <= i < text.len() implies '0' <= #[trigger] text[i] && text[i]
            <= '9' by {
            if i < text.len() - 1 {
                assert(text[i] == decimal(n / 10)[i]);
            }
        }
        assert(text[0] == decimal(n / 10)[0]);
    }
}

/// The name of a peer is its host, then a colon, then its port in decimal
/// digits, and nothing else.
pub proof fn law_endpoint(host: Seq<char>, port: nat, name: Seq<char>)
    ensures
        name == endpoint(host, port) <==> {
            &&& name.len() > host.len()
            &&& name.take(host.len() as int) == host
            &&& name[host.len() as int] == ':'
            &&& is_decimal(name.skip((host.len() + 1) as int), port)
        },
{
    let whole = endpoint(host, port);
    lemma_decimal(port);
    assert(whole.take(host.len() as int) =~= host);
    assert(whole.skip((host.len() + 1) as int) =~= decimal(port));
    if name.len() > host.len() && name.take(host.len() as int) == host && name[host.len() as int]
        == ':' && is_decimal(name.skip((host.len() + 1) as int), port) {
        law_decimal(port, name.skip((host.len() + 1) as int));
        assert forall|i: int| 0 <= i < name.len() implies name[i] == whole[i] by {
            if i < host.len() {
                assert(name[i] == name.take(host.len() as int)[i]);
            } else if i > host.len() {
                assert(name[i] == name.skip((host.len() + 1) as int)[i - host.len() - 1]);
            }
        }
        assert(name.len() == whole.len());
        assert(name =~= whole);
    }
}

/// The name of a peer.
pub fn endpoint_text(host: &String, port: usize) -> (r: String)
    ensures
        r@ == endpoint(host@, port as nat),
{
    let mut r = host.clone();
    r.append(":");
    proof {
        reveal_strlit(":");
    }
    r.append(decimal_text(port).as_str());
    assert(r@ =~= endpoint(host@, port as nat));
    r
}

} // verus!
