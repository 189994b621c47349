//! PEM text in which a certificate may be encrypted.
//!
//! openssl reads the first block of PEM text that is named as a certificate
//! and skips the others. Where the headers of that block start with
//! `Proc-Type` it may ask for a password on the terminal. What it makes of all
//! other bytes depends on the bytes alone.
use vstd::prelude::*;

verus! {

/// `part` stands in `data` from the place `at` on.
pub open spec fn stands_at(data: Seq<u8>, at: int, part: Seq<u8>) -> bool {
    0 <= at && at + part.len() <= data.len() && data.subrange(at, at + part.len()) == part
}

/// `-----BEGIN `, with which a block begins.
pub open spec fn begin_mark() -> Seq<u8> {
    seq![45u8, 45u8, 45u8, 45u8, 45u8, 66u8, 69u8, 71u8, 73u8, 78u8, 32u8]
}

/// `CERTIFICATE`, the name of a block.
pub open spec fn certificate_name() -> Seq<u8> {
    seq![67u8, 69u8, 82u8, 84u8, 73u8, 70u8, 73u8, 67u8, 65u8, 84u8, 69u8]
}

/// `X509 `, which may stand before the name.
pub open spec fn old_prefix() -> Seq<u8> {
    seq![88u8, 53u8, 48u8, 57u8, 32u8]
}

/// `TRUSTED `, which may stand before the name.
pub open spec fn trusted_prefix() -> Seq<u8> {
    seq![84u8, 82u8, 85u8, 83u8, 84u8, 69u8, 68u8, 32u8]
}

/// `-----`, which ends the line of the name.
pub open spec fn end_mark() -> Seq<u8> {
    seq![45u8, 45u8, 45u8, 45u8, 45u8]
}

/// `Proc-Type`, with which encryption headers start.
pub open spec fn proc_type() -> Seq<u8> {
    seq![80u8, 114u8, 111u8, 99u8, 45u8, 84u8, 121u8, 112u8, 101u8]
}

/// A byte that may stand between the name of a block and its headers: a dash,
/// a blank, a control character other than NUL, or no ASCII at all.
pub open spec fn is_filler(byte: u8) -> bool {
    byte == 45 || 0 < byte <= 32 || byte >= 128
}

/// The first place from `at` on that holds no filler.
pub open spec fn after_filler(data: Seq<u8>, at: int) -> int
    decreases data.len() - at,
{
    if 0 <= at < data.len() && is_filler(data[at]) {
        after_filler(data, at + 1)
    } else {
        at
    }
}

/// From `at` on stands the start of `Proc-Type`, up to its end or up to a NUL,
/// after which openssl goes on with the next line.
pub open spec fn starts_proc_type(data: Seq<u8>, at: int) -> bool {
    exists|n: int|
        0 <= n <= proc_type().len() && #[trigger] stands_at(data, at, proc_type().take(n)) && (n
            == proc_type().len() || (at + n < data.len() && data[at + n] == 0))
}

/// The place behind the name, where a block that begins at `at` is named as a
/// certificate.
pub open spec fn behind_name(data: Seq<u8>, at: int) -> Option<int> {
    let name = at + begin_mark().len();
    if stands_at(data, name, certificate_name()) {
        Some(name + certificate_name().len())
    } else if stands_at(data, name, old_prefix() + certificate_name()) {
        Some(name + old_prefix().len() + certificate_name().len())
    } else if stands_at(data, name, trusted_prefix() + certificate_name()) {
        Some(name + trusted_prefix().len() + certificate_name().len())
    } else {
        None
    }
}

/// A block begins at `at`.
pub open spec fn begins(data: Seq<u8>, at: int) -> bool {
    stands_at(data, at, begin_mark())
}

/// A block begins at `at` that is named as a certificate and whose headers
/// may say that it is encrypted.
pub open spec fn encrypted_at(data: Seq<u8>, at: int) -> bool {
    begins(data, at) && (behind_name(data, at) matches Some(end) && starts_proc_type(
        data,
        after_filler(data, end),
    ))
}

/// A certificate begins at `at` on a line of its own, so that openssl surely
/// reads this block if it comes to it.
pub open spec fn certificate_line(data: Seq<u8>, at: int) -> bool {
    let end = at + begin_mark().len() + certificate_name().len();
    &&& begins(data, at)
    &&& at == 0 || data[at - 1] == 10
    &&& stands_at(data, at + begin_mark().len(), certificate_name() + end_mark())
    &&& stands_at(data, end + end_mark().len(), seq![10u8]) || stands_at(
        data,
        end + end_mark().len(),
        seq![13u8, 10u8],
    )
}

/// The first block of the bytes begins at `at` and is a certificate; none that
/// comes after it is read.
pub open spec fn settles(data: Seq<u8>, at: int) -> bool {
    certificate_line(data, at) && forall|k: int| 0 <= k < at ==> !#[trigger] begins(data, k)
}

/// openssl may ask for a password when it looks for a certificate in these
/// bytes.
pub open spec fn may_be_encrypted(data: Seq<u8>) -> bool {
    exists|at: int|
        0 <= at < data.len() && #[trigger] encrypted_at(data, at) && !exists|k: int|
            0 <= k < at && #[trigger] settles(data, k)
}

/// Whether `part` stands in `data` from the place `at` on.
fn check_at(data: &Vec<u8>, at: usize, part: &Vec<u8>) -> (r: bool)
    requires
        at <= data.len(),
    ensures
        r == stands_at(data@, at as int, part@),
{
    if data.len() - at < part.len() {
        return false;
    }
    let mut i: usize = 0;
    while i < part.len()
        invariant
            at + part.len() <= data.len(),
            i <= part@.len(),
            forall|k: int| 0 <= k < i ==> data@[at + k] == #[trigger] part@[k],
        decreases part@.len() - i,
    {
        if data[at + i] != part[i] {
            assert(data@.subrange(at as int, at + part@.len())[i as int] != part@[i as int]);
            return false;
        }
        i = i + 1;
    }
    assert(data@.subrange(at as int, at + part@.len()) =~= part@);
    true
}

/// The first place from `at` on that holds no filler.
fn skip_filler(data: &Vec<u8>, at: usize) -> (r: usize)
    requires
        at <= data.len(),
    ensures
        at <= r <= data.len(),
        r == after_filler(data@, at as int),
{
    let mut i: usize = at;
    while i < data.len() && (data[i] == 45 || (0 < data[i] && data[i] <= 32) || data[i] >= 128)
        invariant
            at <= i <= data.len(),
            after_filler(data@, at as int) == after_filler(data@, i as int),
        decreases data@.len() - i,
    {
        i = i + 1;
    }
    i
}

/// Whether the start of `Proc-Type` stands from `at` on, up to its end or up
/// to a NUL.
fn check_proc_type(data: &Vec<u8>, at: usize) -> (r: bool)
    requires
        at <= data.len(),
    ensures
        r == starts_proc_type(data@, at as int),
{
    let mark: Vec<u8> = vec![80u8, 114u8, 111u8, 99u8, 45u8, 84u8, 121u8, 112u8, 101u8];
    assert(mark@ =~= proc_type());
    let mut n: usize = 0;
    while n < 9
        invariant
            n <= 9,
            mark@ == proc_type(),
            at + n <= data.len(),
            forall|k: int| 0 <= k < n ==> data@[at + k] == #[trigger] proc_type()[k],
            forall|k: int| 0 <= k < n ==> #[trigger] data@[at + k] != 0,
        decreases 9 - n,
    {
        if at + n == data.len() {
            proof {
                lemma_no_proc_type(data@, at as int, n as int);
            }
            return false;
        }
        if data[at + n] == 0 {
            assert(data@.subrange(at as int, at + n) =~= proc_type().take(n as int));
            assert(stands_at(data@, at as int, proc_type().take(n as int)));
            return true;
        }
        if data[at + n] != mark[n] {
            proof {
                lemma_no_proc_type(data@, at as int, n as int);
            }
            return false;
        }
        n = n + 1;
    }
    assert(data@.subrange(at as int, at + 9) =~= proc_type().take(9));
    assert(stands_at(data@, at as int, proc_type().take(9)));
    true
}

/// Bytes that leave `Proc-Type` before its end, and with no NUL, do not start
/// it.
proof fn lemma_no_proc_type(data: Seq<u8>, at: int, n: int)
    requires
        0 <= at,
        0 <= n < proc_type().len(),
        at + n <= data.len(),
        forall|k: int| 0 <= k < n ==> #[trigger] data[at + k] != 0,
        at + n < data.len() ==> data[at + n] != 0 && data[at + n] != proc_type()[n],
    ensures
        !starts_proc_type(data, at),
{
    if starts_proc_type(data, at) {
        let m = choose|m: int|
            0 <= m <= proc_type().len() && #[trigger] stands_at(data, at, proc_type().take(m)) && (m
                == proc_type().len() || (at + m < data.len() && data[at + m] == 0));
        if m > n {
            assert(data.subrange(at, at + m)[n] == proc_type().take(m)[n]);
        } else if m < n {
            assert(data[at + m] != 0);
        }
    }
}

/// Whether the block that begins at `at` is named as a certificate and its
/// headers may say that it is encrypted.
fn check_encrypted_at(data: &Vec<u8>, at: usize) -> (r: bool)
    requires
        at <= data.len(),
        begins(data@, at as int),
    ensures
        r == encrypted_at(data@, at as int),
{
    let plain: Vec<u8> = vec![
        67u8, 69u8, 82u8, 84u8, 73u8, 70u8, 73u8, 67u8, 65u8, 84u8, 69u8,
    ];
    let old: Vec<u8> = vec![
        88u8, 53u8, 48u8, 57u8, 32u8, 67u8, 69u8, 82u8, 84u8, 73u8, 70u8, 73u8, 67u8, 65u8, 84u8,
        69u8,
    ];
    let trusted: Vec<u8> = vec![
        84u8, 82u8, 85u8, 83u8, 84u8, 69u8, 68u8, 32u8, 67u8, 69u8, 82u8, 84u8, 73u8, 70u8, 73u8,
        67u8, 65u8, 84u8, 69u8,
    ];
    proof {
        assert(plain@ =~= certificate_name());
        assert(old@ =~= old_prefix() + certificate_name());
        assert(trusted@ =~= trusted_prefix() + certificate_name());
    }
    let name: usize = at + 11;
    let end: usize = if check_at(data, name, &plain) {
        name + 11
    } else if check_at(data, name, &old) {
        name + 16
    } else if check_at(data, name, &trusted) {
        name + 19
    } else {
        return false;
    };
    check_proc_type(data, skip_filler(data, end))
}

/// Whether a certificate begins at `at` on a line of its own.
fn check_certificate_line(data: &Vec<u8>, at: usize) -> (r: bool)
    requires
        at <= data.len(),
        begins(data@, at as int),
    ensures
        r == certificate_line(data@, at as int),
{
    if at > 0 && data[at - 1] != 10 {
        return false;
    }
    let rest: Vec<u8> = vec![
        67u8, 69u8, 82u8, 84u8, 73u8, 70u8, 73u8, 67u8, 65u8, 84u8, 69u8, 45u8, 45u8, 45u8, 45u8,
        45u8,
    ];
    let newline: Vec<u8> = vec![10u8];
    let both: Vec<u8> = vec![13u8, 10u8];
    proof {
        assert(rest@ =~= certificate_name() + end_mark());
        assert(newline@ =~= seq![10u8]);
        assert(both@ =~= seq![13u8, 10u8]);
    }
    check_at(data, at + 11, &rest) && (check_at(data, at + 27, &newline) || check_at(
        data,
        at + 27,
        &both,
    ))
}

/// Whether openssl may ask for a password when it looks for a certificate in
/// these bytes.
pub fn asks_for_password(data: &Vec<u8>) -> (r: bool)
    ensures
        r == may_be_encrypted(data@),
{
    let begin: Vec<u8> = vec![45u8, 45u8, 45u8, 45u8, 45u8, 66u8, 69u8, 71u8, 73u8, 78u8, 32u8];
    assert(begin@ =~= begin_mark());
    let mut first: bool = true;
    let mut i: usize = 0;
    while i < data.len()
        invariant
            begin@ == begin_mark(),
            i <= data@.len(),
            forall|k: int| 0 <= k < i ==> !#[trigger] encrypted_at(data@, k),
            forall|k: int| 0 <= k < i ==> !#[trigger] settles(data@, k),
            first == forall|k: int| 0 <= k < i ==> !#[trigger] begins(data@, k),
        decreases data@.len() - i,
    {
        if check_at(data, i, &begin) {
            if check_encrypted_at(data, i) {
                return true;
            }
            if first && check_certificate_line(data, i) {
                assert(settles(data@, i as int));
                return false;
            }
            first = false;
            assert(begins(data@, i as int));
        }
        i = i + 1;
    }
    false
}

/// Bytes in which no block begins hold nothing that is encrypted.
pub proof fn law_no_block(data: Seq<u8>)
    requires
        forall|at: int|
            0 <= at && at + 11 <= data.len() ==> #[trigger] data.subrange(at, at + 11)
                != seq![45u8, 45u8, 45u8, 45u8, 45u8, 66u8, 69u8, 71u8, 73u8, 78u8, 32u8],
    ensures
        !may_be_encrypted(data),
{
    if may_be_encrypted(data) {
        let at = choose|at: int|
            0 <= at < data.len() && #[trigger] encrypted_at(data, at) && !exists|k: int|
                0 <= k < at && #[trigger] settles(data, k);
        assert(data.subrange(at, at + 11) == begin_mark());
    }
}

/// A line of its own says `-----BEGIN CERTIFICATE-----`, from `at` on.
pub open spec fn is_first_line(data: Seq<u8>, at: int) -> bool {
    &&& 0 <= at
    &&& at + 28 <= data.len()
    &&& at == 0 || data[at - 1] == 10
    &&& data.subrange(at, at + 28) == seq![
        45u8, 45u8, 45u8, 45u8, 45u8, 66u8, 69u8, 71u8, 73u8, 78u8, 32u8, 67u8, 69u8, 82u8, 84u8,
        73u8, 70u8, 73u8, 67u8, 65u8, 84u8, 69u8, 45u8, 45u8, 45u8, 45u8, 45u8, 10u8,
    ]
}

/// Bytes whose first block is a certificate, named on a line of its own, may be
/// encrypted where the next line starts with `Proc-Type`. Where that line starts
/// with any printable ASCII but the first letter of this, a blank or a dash, they
/// are not, whatever comes after.
pub proof fn law_first_block_decides(data: Seq<u8>, at: int)
    requires
        is_first_line(data, at),
        at + 28 < data.len(),
        forall|k: int|
            0 <= k < at ==> #[trigger] data.subrange(k, k + 11)
                != seq![45u8, 45u8, 45u8, 45u8, 45u8, 66u8, 69u8, 71u8, 73u8, 78u8, 32u8],
    ensures
        33 <= data[at + 28] < 128 && data[at + 28] != 45 && data[at + 28] != 80
            ==> !may_be_encrypted(data),
        at + 37 <= data.len() && data.subrange(at + 28, at + 37) == seq![
            80u8, 114u8, 111u8, 99u8, 45u8, 84u8, 121u8, 112u8, 101u8,
        ] ==> may_be_encrypted(data),
{
    let line = data.subrange(at, at + 28);
    assert(data.subrange(at, at + 11) =~= begin_mark()) by {
        assert(data.subrange(at, at + 11) =~= line.subrange(0, 11));
    }
    assert(data.subrange(at + 11, at + 22) =~= certificate_name()) by {
        assert(data.subrange(at + 11, at + 22) =~= line.subrange(11, 22));
    }
    assert(data.subrange(at + 11, at + 27) =~= certificate_name() + end_mark()) by {
        assert(data.subrange(at + 11, at + 27) =~= line.subrange(11, 27));
    }
    assert(data.subrange(at + 27, at + 28) =~= seq![10u8]) by {
        assert(data.subrange(at + 27, at + 28) =~= line.subrange(27, 28));
    }
    assert forall|k: int| 0 <= k < at implies !#[trigger] begins(data, k) by {
        if begins(data, k) {
            assert(data.subrange(k, k + 11) == begin_mark());
        }
    }
    assert(certificate_line(data, at));
    assert(settles(data, at));
    assert(behind_name(data, at) == Some(at + 22));
    assert forall|k: int| at + 22 <= k < at + 28 implies is_filler(#[trigger] data[k]) by {
        assert(data[k] == line[k - at]);
    }
    assert(!is_filler(data[at + 28]) ==> after_filler(data, at + 22) == at + 28) by {
        reveal_with_fuel(after_filler, 8);
    }
    if 33 <= data[at + 28] < 128 && data[at + 28] != 45 && data[at + 28] != 80 {
        if encrypted_at(data, at) {
            let start = at + 28;
            let n = choose|n: int|
                0 <= n <= proc_type().len() && #[trigger] stands_at(
                    data,
                    start,
                    proc_type().take(n),
                ) && (n == proc_type().len() || (start + n < data.len() && data[start + n] == 0));
            if n > 0 {
                assert(data.subrange(start, start + n)[0] == proc_type().take(n)[0]);
            }
        }
        if may_be_encrypted(data) {
            let k = choose|k: int|
                0 <= k < data.len() && #[trigger] encrypted_at(data, k) && !exists|j: int|
                    0 <= j < k && #[trigger] settles(data, j);
            assert(k != at);
            if k < at {
                assert(!begins(data, k));
            }
        }
    }
    if at + 37 <= data.len() && data.subrange(at + 28, at + 37) == seq![
        80u8, 114u8, 111u8, 99u8, 45u8, 84u8, 121u8, 112u8, 101u8,
    ] {
        assert(data[at + 28] == data.subrange(at + 28, at + 37)[0]);
        assert(proc_type().take(9) =~= proc_type());
        assert(stands_at(data, at + 28, proc_type().take(9)));
        assert(encrypted_at(data, at));
        assert forall|k: int| 0 <= k < at implies !#[trigger] settles(data, k) by {
            assert(!begins(data, k));
        }
    }
}

/// The three names of a certificate's block: `CERTIFICATE`, alone or after
/// `X509 ` or `TRUSTED `.
pub open spec fn is_certificate_name(name: Seq<u8>) -> bool {
    ||| name == seq![67u8, 69u8, 82u8, 84u8, 73u8, 70u8, 73u8, 67u8, 65u8, 84u8, 69u8]
    ||| name == seq![
        88u8, 53u8, 48u8, 57u8, 32u8, 67u8, 69u8, 82u8, 84u8, 73u8, 70u8, 73u8, 67u8, 65u8, 84u8,
        69u8,
    ]
    ||| name == seq![
        84u8, 82u8, 85u8, 83u8, 84u8, 69u8, 68u8, 32u8, 67u8, 69u8, 82u8, 84u8, 73u8, 70u8, 73u8,
        67u8, 65u8, 84u8, 69u8,
    ]
}

/// Bytes may be encrypted where their first block is named as a certificate,
/// under any of its names, and `Proc-Type` stands behind the name, with nothing
/// between them but dashes, bytes up to the blank other than NUL, and bytes that
/// are no ASCII.
pub proof fn law_encrypted_blocks(data: Seq<u8>, at: int, end: int, n: int)
    requires
        0 <= at,
        at + 11 <= end <= n,
        n + 9 <= data.len(),
        data.subrange(at, at + 11)
            == seq![45u8, 45u8, 45u8, 45u8, 45u8, 66u8, 69u8, 71u8, 73u8, 78u8, 32u8],
        forall|k: int|
            0 <= k < at ==> #[trigger] data.subrange(k, k + 11)
                != seq![45u8, 45u8, 45u8, 45u8, 45u8, 66u8, 69u8, 71u8, 73u8, 78u8, 32u8],
        is_certificate_name(data.subrange(at + 11, end)),
        forall|k: int|
            end <= k < n ==> #[trigger] data[k] == 45 || 1 <= data[k] <= 32 || data[k] >= 128,
        data.subrange(n, n + 9)
            == seq![80u8, 114u8, 111u8, 99u8, 45u8, 84u8, 121u8, 112u8, 101u8],
    ensures
        may_be_encrypted(data),
{
    let name = data.subrange(at + 11, end);
    assert(name.len() == end - at - 11);
    assert(data[at + 11] == name[0]);
    assert(begins(data, at));
    assert(old_prefix() + certificate_name() =~= seq![
        88u8, 53u8, 48u8, 57u8, 32u8, 67u8, 69u8, 82u8, 84u8, 73u8, 70u8, 73u8, 67u8, 65u8, 84u8,
        69u8,
    ]);
    assert(trusted_prefix() + certificate_name() =~= seq![
        84u8, 82u8, 85u8, 83u8, 84u8, 69u8, 68u8, 32u8, 67u8, 69u8, 82u8, 84u8, 73u8, 70u8, 73u8,
        67u8, 65u8, 84u8, 69u8,
    ]);
    if stands_at(data, at + 11, certificate_name()) {
        assert(data.subrange(at + 11, at + 22)[0] == certificate_name()[0]);
    }
    if stands_at(data, at + 11, old_prefix() + certificate_name()) {
        assert(data.subrange(at + 11, at + 27)[0] == old_prefix()[0]);
    }
    assert(behind_name(data, at) == Some(end));
    assert(data[n] == data.subrange(n, n + 9)[0]);
    lemma_after_filler(data, end, n);
    assert(proc_type().take(9) =~= proc_type());
    assert(stands_at(data, n, proc_type().take(9)));
    assert(encrypted_at(data, at));
    assert forall|k: int| 0 <= k < at implies !#[trigger] settles(data, k) by {
        if begins(data, k) {
            assert(data.subrange(k, k + 11) == begin_mark());
        }
    }
}

/// Filler is skipped up to the first byte that is none.
proof fn lemma_after_filler(data: Seq<u8>, at: int, n: int)
    requires
        0 <= at <= n < data.len(),
        forall|k: int| at <= k < n ==> is_filler(#[trigger] data[k]),
        !is_filler(data[n]),
    ensures
        after_filler(data, at) == n,
    decreases n - at,
{
    if at < n {
        lemma_after_filler(data, at + 1, n);
    }
}

} // verus!
