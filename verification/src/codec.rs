//! Wire codec: frames a byte stream into discrete commands (arrays of
//! binary-safe bulk strings) and serializes server replies.
//!
//! A request frame is `*<N>\r\n` followed by `N` bulk strings, each
//! `$<len>\r\n<len bytes>\r\n`. Decoding consumes exactly the declared
//! number of payload bytes, whatever they contain; a buffer that stops
//! short of the declared frame is reported as incomplete rather than
//! guessed at.

use vstd::prelude::*;
use vstd::slice::slice_subrange;
use vstd::slice::slice_to_vec;

verus! {

/// Byte value of `'\r'`.
pub const CR: u8 = 13;
/// Byte value of `'\n'`.
pub const LF: u8 = 10;
/// Byte value of `'*'`, the array marker.
pub const STAR: u8 = 42;
/// Byte value of `'$'`, the bulk-string marker.
pub const DOLLAR: u8 = 36;
/// Byte value of `'+'`, the simple-string marker.
pub const PLUS: u8 = 43;
/// Byte value of `'-'`, the error marker.
pub const MINUS: u8 = 45;
/// Byte value of `'0'`.
pub const ZERO: u8 = 48;

/// The two-byte line terminator of the wire protocol.
pub open spec fn crlf() -> Seq<u8> {
    seq![CR, LF]
}

/// Whether a byte is an ASCII decimal digit.
pub open spec fn is_digit(b: u8) -> bool {
    ZERO <= b && b <= 57
}

/// Numeric value of an ASCII decimal digit.
pub open spec fn digit_val(b: u8) -> nat {
    (b - ZERO) as nat
}

/// Shortest decimal representation of `n`, as ASCII bytes.
pub open spec fn dec_rep(n: nat) -> Seq<u8>
    decreases n,
{
    if n < 10 {
        seq![(n + ZERO) as u8]
    } else {
        dec_rep(n / 10) + seq![((n % 10) + ZERO) as u8]
    }
}

/// Wire form of one bulk string: `$<len>\r\n<bytes>\r\n`.
pub open spec fn spec_encode_bulk(b: Seq<u8>) -> Seq<u8> {
    seq![DOLLAR] + dec_rep(b.len()) + crlf() + b + crlf()
}

/// Wire form of a run of bulk strings, one after the other.
pub open spec fn spec_encode_bulks(args: Seq<Seq<u8>>) -> Seq<u8>
    decreases args.len(),
{
    if args.len() == 0 {
        Seq::empty()
    } else {
        spec_encode_bulk(args[0]) + spec_encode_bulks(args.skip(1))
    }
}

/// Wire form of a whole command frame: `*<N>\r\n` then `N` bulk strings.
pub open spec fn spec_encode_frame(args: Seq<Seq<u8>>) -> Seq<u8> {
    seq![STAR] + dec_rep(args.len()) + crlf() + spec_encode_bulks(args)
}

/// Every byte of a decimal representation is a digit, and there is at
/// least one of them.
pub proof fn lemma_dec_rep_digits(n: nat)
    ensures
        dec_rep(n).len() >= 1,
        forall|i: int| 0 <= i < dec_rep(n).len() ==> is_digit(#[trigger] dec_rep(n)[i]),
    decreases n,
{
    if n >= 10 {
        lemma_dec_rep_digits(n / 10);
    }
}

/// Writes the decimal representation of `n` (most significant digit
/// first) onto the end of `out`.
pub fn push_dec(out: &mut Vec<u8>, n: u64)
    ensures
        final(out)@ == old(out)@ + dec_rep(n as nat),
    decreases n,
{
    if n < 10 {
        out.push((n as u8) + ZERO);
    } else {
        push_dec(out, n / 10);
        out.push(((n % 10) as u8) + ZERO);
        proof {
            assert(out@ =~= old(out)@ + dec_rep(n as nat));
        }
    }
}

/// Appends every byte of `s` to `out`.
pub fn push_bytes(out: &mut Vec<u8>, s: &[u8])
    ensures
        final(out)@ == old(out)@ + s@,
{
    let mut i: usize = 0;
    while i < s.len()
        invariant
            i <= s.len(),
            out@ == old(out)@ + s@.subrange(0, i as int),
        decreases s.len() - i,
    {
        out.push(s[i]);
        i = i + 1;
        proof {
            assert(out@ =~= old(out)@ + s@.subrange(0, i as int));
        }
    }
    proof {
        assert(out@ =~= old(out)@ + s@);
    }
}

/// Appends the CRLF line terminator to `out`.
pub fn push_crlf(out: &mut Vec<u8>)
    ensures
        final(out)@ == old(out)@ + crlf(),
{
    out.push(CR);
    out.push(LF);
    proof {
        assert(out@ =~= old(out)@ + crlf());
    }
}

/// Appends the wire form of one bulk string to `out`.
pub fn push_bulk(out: &mut Vec<u8>, b: &[u8])
    ensures
        final(out)@ == old(out)@ + spec_encode_bulk(b@),
{
    out.push(DOLLAR);
    push_dec(out, b.len() as u64);
    push_crlf(out);
    push_bytes(out, b);
    push_crlf(out);
    proof {
        assert(out@ =~= old(out)@ + spec_encode_bulk(b@));
    }
}

/// Appending one more bulk string to a run extends its wire form at the
/// end.
pub proof fn lemma_encode_bulks_push(args: Seq<Seq<u8>>, b: Seq<u8>)
    ensures
        spec_encode_bulks(args.push(b)) == spec_encode_bulks(args) + spec_encode_bulk(b),
    decreases args.len(),
{
    if args.len() == 0 {
        assert(args.push(b).skip(1) =~= Seq::<Seq<u8>>::empty());
        assert(spec_encode_bulks(Seq::<Seq<u8>>::empty()) == Seq::<u8>::empty());
        assert(spec_encode_bulks(args.push(b)) == spec_encode_bulk(b) + spec_encode_bulks(
            args.push(b).skip(1),
        ));
        assert(spec_encode_bulks(args.push(b)) =~= spec_encode_bulks(args) + spec_encode_bulk(b));
    } else {
        lemma_encode_bulks_push(args.skip(1), b);
        assert(args.push(b).skip(1) =~= args.skip(1).push(b));
        assert(spec_encode_bulks(args.push(b)) =~= spec_encode_bulks(args) + spec_encode_bulk(b));
    }
}

/// Encodes a whole command frame: the argument count line, then each
/// argument as a bulk string.
pub fn encode_frame(args: &Vec<Vec<u8>>) -> (r: Vec<u8>)
    ensures
        r@ == spec_encode_frame(args.deep_view()),
{
    let mut out: Vec<u8> = Vec::new();
    out.push(STAR);
    push_dec(&mut out, args.len() as u64);
    push_crlf(&mut out);
    let ghost head: Seq<u8> = out@;
    let mut i: usize = 0;
    while i < args.len()
        invariant
            i <= args.len(),
            out@ == head + spec_encode_bulks(args.deep_view().take(i as int)),
        decreases args.len() - i,
    {
        push_bulk(&mut out, args[i].as_slice());
        proof {
            lemma_encode_bulks_push(args.deep_view().take(i as int), args.deep_view()[i as int]);
            assert(args.deep_view().take(i + 1) =~= args.deep_view().take(i as int).push(
                args.deep_view()[i as int],
            ));
        }
        i = i + 1;
    }
    proof {
        assert(args.deep_view().take(args.len() as int) =~= args.deep_view());
        assert(out@ =~= spec_encode_frame(args.deep_view()));
    }
    out
}

/// A server reply, by kind.
pub enum Reply {
    /// `+<text>\r\n`
    Simple(Vec<u8>),
    /// `-<text>\r\n`
    Error(Vec<u8>),
    /// `$<len>\r\n<bytes>\r\n`
    Bulk(Vec<u8>),
    /// `$-1\r\n`
    NullBulk,
    /// `$<len>\r\n<bytes>` with no trailing terminator; used once per
    /// follower, for the snapshot transfer.
    Raw(Vec<u8>),
}

/// The mathematical shape of a reply: the same five kinds over byte
/// sequences.
pub enum ReplyModel {
    Simple(Seq<u8>),
    Error(Seq<u8>),
    Bulk(Seq<u8>),
    NullBulk,
    Raw(Seq<u8>),
}

impl View for Reply {
    type V = ReplyModel;

    open spec fn view(&self) -> ReplyModel {
        match self {
            Reply::Simple(t) => ReplyModel::Simple(t@),
            Reply::Error(t) => ReplyModel::Error(t@),
            Reply::Bulk(b) => ReplyModel::Bulk(b@),
            Reply::NullBulk => ReplyModel::NullBulk,
            Reply::Raw(b) => ReplyModel::Raw(b@),
        }
    }
}

/// Wire form of each reply kind.
pub open spec fn spec_encode_reply(r: ReplyModel) -> Seq<u8> {
    match r {
        ReplyModel::Simple(t) => seq![PLUS] + t + crlf(),
        ReplyModel::Error(t) => seq![MINUS] + t + crlf(),
        ReplyModel::Bulk(b) => spec_encode_bulk(b),
        ReplyModel::NullBulk => seq![DOLLAR, MINUS, 49u8] + crlf(),
        ReplyModel::Raw(b) => seq![DOLLAR] + dec_rep(b.len()) + crlf() + b,
    }
}

/// Serializes a reply into its wire form.
pub fn encode_reply(r: &Reply) -> (out: Vec<u8>)
    ensures
        out@ == spec_encode_reply(r@),
{
    let mut out: Vec<u8> = Vec::new();
    match r {
        Reply::Simple(t) => {
            out.push(PLUS);
            push_bytes(&mut out, t.as_slice());
            push_crlf(&mut out);
        },
        Reply::Error(t) => {
            out.push(MINUS);
            push_bytes(&mut out, t.as_slice());
            push_crlf(&mut out);
        },
        Reply::Bulk(b) => {
            push_bulk(&mut out, b.as_slice());
        },
        Reply::NullBulk => {
            out.push(DOLLAR);
            out.push(MINUS);
            out.push(49);
            push_crlf(&mut out);
        },
        Reply::Raw(b) => {
            out.push(DOLLAR);
            push_dec(&mut out, b.len() as u64);
            push_crlf(&mut out);
            push_bytes(&mut out, b.as_slice());
        },
    }
    proof {
        assert(out@ =~= spec_encode_reply(r@));
    }
    out
}

/// Outcome of running a piece of the grammar against a buffer, at the
/// specification level: a parsed value together with the position just
/// past what it consumed, a report that the buffer ends before the
/// frame does, or a report that the bytes cannot start any frame.
pub enum Parse<T> {
    Found(T, int),
    More,
    Bad,
}

/// Scans a run of decimal digits starting at `i`, folding them onto
/// `acc`. Stops at the first non-digit; a buffer that ends while still
/// inside the run needs more bytes; a value that would not fit in
/// `usize` is malformed.
pub open spec fn parse_digits(s: Seq<u8>, i: int, acc: nat) -> Parse<nat>
    decreases s.len() - i,
{
    if i < 0 || i >= s.len() {
        Parse::More
    } else if !is_digit(s[i]) {
        Parse::Found(acc, i)
    } else if acc * 10 + digit_val(s[i]) > usize::MAX as nat {
        Parse::Bad
    } else {
        parse_digits(s, i + 1, acc * 10 + digit_val(s[i]))
    }
}

/// Scans a non-negative decimal number starting at `i`: at least one
/// digit, ended by the first non-digit.
pub open spec fn parse_number(s: Seq<u8>, i: int) -> Parse<nat> {
    if i >= s.len() {
        Parse::More
    } else if !is_digit(s[i]) {
        Parse::Bad
    } else {
        parse_digits(s, i, 0)
    }
}

/// Scans the CRLF line terminator at `i`.
pub open spec fn parse_crlf(s: Seq<u8>, i: int) -> Parse<()> {
    if i >= s.len() {
        Parse::More
    } else if s[i] != CR {
        Parse::Bad
    } else if i + 1 >= s.len() {
        Parse::More
    } else if s[i + 1] != LF {
        Parse::Bad
    } else {
        Parse::Found((), i + 2)
    }
}

/// Scans one bulk string at `i`: `$<len>\r\n`, then exactly `len` raw
/// bytes whatever they contain, then CRLF.
pub open spec fn parse_bulk(s: Seq<u8>, i: int) -> Parse<Seq<u8>> {
    if i >= s.len() {
        Parse::More
    } else if s[i] != DOLLAR {
        Parse::Bad
    } else {
        match parse_number(s, i + 1) {
            Parse::More => Parse::More,
            Parse::Bad => Parse::Bad,
            Parse::Found(len, j) => match parse_crlf(s, j) {
                Parse::More => Parse::More,
                Parse::Bad => Parse::Bad,
                Parse::Found(_, k) => if k + len > s.len() {
                    Parse::More
                } else {
                    match parse_crlf(s, k + len) {
                        Parse::More => Parse::More,
                        Parse::Bad => Parse::Bad,
                        Parse::Found(_, m) => Parse::Found(s.subrange(k, k + len), m),
                    }
                },
            },
        }
    }
}

/// Scans `n` bulk strings one after the other, starting at `i`.
pub open spec fn parse_bulks(s: Seq<u8>, i: int, n: nat) -> Parse<Seq<Seq<u8>>>
    decreases n,
{
    if n == 0 {
        Parse::Found(Seq::empty(), i)
    } else {
        match parse_bulk(s, i) {
            Parse::More => Parse::More,
            Parse::Bad => Parse::Bad,
            Parse::Found(b, j) => match parse_bulks(s, j, (n - 1) as nat) {
                Parse::More => Parse::More,
                Parse::Bad => Parse::Bad,
                Parse::Found(rest, k) => Parse::Found(seq![b] + rest, k),
            },
        }
    }
}

/// Scans one whole command frame from the start of the buffer:
/// `*<N>\r\n` followed by `N` bulk strings.
pub open spec fn parse_frame(s: Seq<u8>) -> Parse<Seq<Seq<u8>>> {
    if s.len() == 0 {
        Parse::More
    } else if s[0] != STAR {
        Parse::Bad
    } else {
        match parse_number(s, 1) {
            Parse::More => Parse::More,
            Parse::Bad => Parse::Bad,
            Parse::Found(n, j) => match parse_crlf(s, j) {
                Parse::More => Parse::More,
                Parse::Bad => Parse::Bad,
                Parse::Found(_, k) => parse_bulks(s, k, n),
            },
        }
    }
}

/// Outcome of decoding one frame from a buffer: a complete command with
/// the count of bytes it occupied, a buffer that must grow before the
/// frame can be read whole, or bytes that cannot start a frame.
pub enum Decoded {
    Complete { args: Vec<Vec<u8>>, consumed: usize },
    Incomplete,
    Malformed,
}

enum ScanNum {
    Num(usize, usize),
    More,
    Bad,
}

enum ScanCrlf {
    Crlf(usize),
    More,
    Bad,
}

enum ScanBulk {
    Bulk(Vec<u8>, usize),
    More,
    Bad,
}

fn scan_number(buf: &[u8], start: usize) -> (r: ScanNum)
    ensures
        (r matches ScanNum::Num(v, j) ==> parse_number(buf@, start as int) == Parse::Found(
            v as nat,
            j as int,
        ) && start <= j <= buf@.len()),
        (r is More ==> parse_number(buf@, start as int) is More),
        (r is Bad ==> parse_number(buf@, start as int) is Bad),
{
    if start >= buf.len() {
        return ScanNum::More;
    }
    let first = buf[start];
    if !(ZERO <= first && first <= 57) {
        return ScanNum::Bad;
    }
    let mut i: usize = start;
    let mut acc: usize = 0;
    loop
        invariant
            start <= i <= buf@.len(),
            parse_number(buf@, start as int) == parse_digits(buf@, i as int, acc as nat),
        decreases buf@.len() - i,
    {
        if i >= buf.len() {
            return ScanNum::More;
        }
        let b = buf[i];
        if !(ZERO <= b && b <= 57) {
            return ScanNum::Num(acc, i);
        }
        let d = (b - ZERO) as usize;
        if acc > (usize::MAX - d) / 10 {
            proof {
                assert(acc * 10 + d > usize::MAX) by (nonlinear_arith)
                    requires
                        acc > (usize::MAX - d) / 10,
                        d <= 9,
                ;
            }
            return ScanNum::Bad;
        }
        proof {
            assert(acc * 10 + d <= usize::MAX) by (nonlinear_arith)
                requires
                    acc <= (usize::MAX - d) / 10,
                    d <= 9,
            ;
        }
        acc = acc * 10 + d;
        i = i + 1;
    }
}

fn scan_crlf(buf: &[u8], start: usize) -> (r: ScanCrlf)
    ensures
        (r matches ScanCrlf::Crlf(j) ==> parse_crlf(buf@, start as int) == Parse::Found(
            (),
            j as int,
        ) && start <= j <= buf@.len()),
        (r is More ==> parse_crlf(buf@, start as int) is More),
        (r is Bad ==> parse_crlf(buf@, start as int) is Bad),
{
    if start >= buf.len() {
        return ScanCrlf::More;
    }
    if buf[start] != CR {
        return ScanCrlf::Bad;
    }
    if start + 1 >= buf.len() {
        return ScanCrlf::More;
    }
    if buf[start + 1] != LF {
        return ScanCrlf::Bad;
    }
    ScanCrlf::Crlf(start + 2)
}

fn scan_bulk(buf: &[u8], start: usize) -> (r: ScanBulk)
    ensures
        (r matches ScanBulk::Bulk(b, j) ==> parse_bulk(buf@, start as int) == Parse::Found(
            b@,
            j as int,
        ) && start <= j <= buf@.len()),
        (r is More ==> parse_bulk(buf@, start as int) is More),
        (r is Bad ==> parse_bulk(buf@, start as int) is Bad),
{
    if start >= buf.len() {
        return ScanBulk::More;
    }
    if buf[start] != DOLLAR {
        return ScanBulk::Bad;
    }
    match scan_number(buf, start + 1) {
        ScanNum::More => ScanBulk::More,
        ScanNum::Bad => ScanBulk::Bad,
        ScanNum::Num(len, j) => match scan_crlf(buf, j) {
            ScanCrlf::More => ScanBulk::More,
            ScanCrlf::Bad => ScanBulk::Bad,
            ScanCrlf::Crlf(k) => {
                if len > buf.len() - k {
                    return ScanBulk::More;
                }
                let payload = slice_to_vec(slice_subrange(buf, k, k + len));
                match scan_crlf(buf, k + len) {
                    ScanCrlf::More => ScanBulk::More,
                    ScanCrlf::Bad => ScanBulk::Bad,
                    ScanCrlf::Crlf(m) => ScanBulk::Bulk(payload, m),
                }
            },
        },
    }
}

/// Decodes one command frame from the front of `buf`. The payload bytes
/// of each argument are taken verbatim, by their declared count, so
/// binary-safe arguments (embedded CRLF included) come through intact.
pub fn decode_frame(buf: &[u8]) -> (r: Decoded)
    ensures
        (r matches Decoded::Complete { args, consumed } ==> parse_frame(buf@) == Parse::Found(
            args.deep_view(),
            consumed as int,
        ) && 1 <= consumed <= buf@.len()),
        (r is Incomplete ==> parse_frame(buf@) is More),
        (r is Malformed ==> parse_frame(buf@) is Bad),
{
    if buf.len() == 0 {
        return Decoded::Incomplete;
    }
    if buf[0] != STAR {
        return Decoded::Malformed;
    }
    let (n, j) = match scan_number(buf, 1) {
        ScanNum::More => {
            return Decoded::Incomplete;
        },
        ScanNum::Bad => {
            return Decoded::Malformed;
        },
        ScanNum::Num(n, j) => (n, j),
    };
    let k = match scan_crlf(buf, j) {
        ScanCrlf::More => {
            return Decoded::Incomplete;
        },
        ScanCrlf::Bad => {
            return Decoded::Malformed;
        },
        ScanCrlf::Crlf(k) => k,
    };
    let mut args: Vec<Vec<u8>> = Vec::new();
    let mut pos: usize = k;
    let mut idx: usize = 0;
    while idx < n
        invariant
            idx <= n,
            1 <= k <= pos <= buf@.len(),
            parse_frame(buf@) == parse_bulks(buf@, k as int, n as nat),
            match parse_bulks(buf@, pos as int, (n - idx) as nat) {
                Parse::Found(rest, end) => parse_bulks(buf@, k as int, n as nat) == Parse::Found(
                    args.deep_view() + rest,
                    end,
                ),
                Parse::More => parse_bulks(buf@, k as int, n as nat) is More,
                Parse::Bad => parse_bulks(buf@, k as int, n as nat) is Bad,
            },
        decreases n - idx,
    {
        match scan_bulk(buf, pos) {
            ScanBulk::More => {
                return Decoded::Incomplete;
            },
            ScanBulk::Bad => {
                return Decoded::Malformed;
            },
            ScanBulk::Bulk(b, next) => {
                proof {
                    let ghost m = (n - idx) as nat;
                    assert(parse_bulks(buf@, pos as int, m) == match parse_bulks(
                        buf@,
                        next as int,
                        (m - 1) as nat,
                    ) {
                        Parse::Found(rest, end) => Parse::Found(seq![b@] + rest, end),
                        Parse::More => Parse::More,
                        Parse::Bad => Parse::Bad,
                    });
                }
                let ghost old_args = args.deep_view();
                args.push(b);
                proof {
                    assert(args.deep_view() =~~= old_args.push(b@));
                    if let Parse::Found(rest2, end) = parse_bulks(
                        buf@,
                        next as int,
                        (n - idx - 1) as nat,
                    ) {
                        assert(old_args + (seq![b@] + rest2) =~~= args.deep_view() + rest2);
                    }
                }
                pos = next;
                idx = idx + 1;
            },
        }
    }
    proof {
        assert(parse_bulks(buf@, pos as int, 0) == Parse::<Seq<Seq<u8>>>::Found(
            Seq::empty(),
            pos as int,
        ));
        assert(args.deep_view() + Seq::<Seq<u8>>::empty() =~~= args.deep_view());
    }
    Decoded::Complete { args, consumed: pos }
}

/// Value of a run of digit bytes read left to right, folded onto `acc`.
pub open spec fn digits_value_acc(ds: Seq<u8>, acc: nat) -> nat
    decreases ds.len(),
{
    if ds.len() == 0 {
        acc
    } else {
        digits_value_acc(ds.skip(1), acc * 10 + digit_val(ds[0]))
    }
}

/// Folding digits onto `acc` never goes below `acc`.
pub proof fn lemma_dva_lower(ds: Seq<u8>, acc: nat)
    ensures
        digits_value_acc(ds, acc) >= acc,
    decreases ds.len(),
{
    if ds.len() > 0 {
        lemma_dva_lower(ds.skip(1), acc * 10 + digit_val(ds[0]));
    }
}

/// Folding distributes over concatenation: the first run's result seeds
/// the second run.
pub proof fn lemma_dva_concat(a: Seq<u8>, b: Seq<u8>, acc: nat)
    ensures
        digits_value_acc(a + b, acc) == digits_value_acc(b, digits_value_acc(a, acc)),
    decreases a.len(),
{
    if a.len() == 0 {
        assert(a + b =~= b);
    } else {
        assert((a + b).skip(1) =~= a.skip(1) + b);
        lemma_dva_concat(a.skip(1), b, acc * 10 + digit_val(a[0]));
    }
}

/// Folding a single digit: one step of the recurrence.
pub proof fn lemma_dva_single(c: u8, acc: nat)
    ensures
        digits_value_acc(seq![c], acc) == acc * 10 + digit_val(c),
{
    assert(seq![c].skip(1) =~= Seq::<u8>::empty());
    assert(digits_value_acc(Seq::<u8>::empty(), acc * 10 + digit_val(c)) == acc * 10 + digit_val(
        c,
    ));
}

/// Ten to the `k`.
pub open spec fn pow10(k: nat) -> nat
    decreases k,
{
    if k == 0 {
        1
    } else {
        10 * pow10((k - 1) as nat)
    }
}

/// Reading back the decimal representation of `n` over a seed `acc`
/// yields `acc` shifted past it, plus `n`.
proof fn lemma_dva_dec_rep(n: nat, acc: nat)
    ensures
        digits_value_acc(dec_rep(n), acc) == acc * pow10(dec_rep(n).len() as nat) + n,
    decreases n,
{
    if n < 10 {
        assert(dec_rep(n) =~= seq![(n + ZERO) as u8]);
        lemma_dva_single((n + ZERO) as u8, acc);
        assert(digit_val((n + ZERO) as u8) == n);
        assert(pow10(0) == 1);
        assert(pow10(1) == 10);
    } else {
        let d = ((n % 10) + ZERO) as u8;
        let head = dec_rep(n / 10);
        lemma_dva_concat(head, seq![d], acc);
        lemma_dva_dec_rep(n / 10, acc);
        let h = digits_value_acc(head, acc);
        lemma_dva_single(d, h);
        assert(digit_val(d) == n % 10);
        assert(digits_value_acc(seq![d], h) == h * 10 + n % 10);
        let l1 = head.len() as nat;
        assert(h == acc * pow10(l1) + n / 10);
        assert(dec_rep(n).len() == l1 + 1);
        assert(pow10(l1 + 1) == 10 * pow10(l1));
        assert((acc * pow10(l1) + n / 10) * 10 + n % 10 == acc * (10 * pow10(l1)) + ((n / 10) * 10
            + n % 10)) by (nonlinear_arith);
        assert((n / 10) * 10 + n % 10 == n) by (nonlinear_arith);
    }
}

/// The decimal representation of `n` reads back as `n`.
proof fn lemma_dec_rep_value(n: nat)
    ensures
        digits_value_acc(dec_rep(n), 0) == n,
{
    lemma_dva_dec_rep(n, 0);
    assert(0 * pow10(dec_rep(n).len() as nat) == 0) by (nonlinear_arith);
}

/// A digit run that sits in `s` from `i` to `j`, ended by a non-digit at
/// `j`, scans to exactly its folded value.
proof fn lemma_parse_digits_region(s: Seq<u8>, i: int, j: int, acc: nat)
    requires
        0 <= i <= j < s.len(),
        forall|k: int| i <= k < j ==> is_digit(#[trigger] s[k]),
        !is_digit(s[j]),
        digits_value_acc(s.subrange(i, j), acc) <= usize::MAX,
    ensures
        parse_digits(s, i, acc) == Parse::<nat>::Found(digits_value_acc(s.subrange(i, j), acc), j),
    decreases j - i,
{
    if i == j {
        assert(s.subrange(i, j) =~= Seq::<u8>::empty());
    } else {
        let acc2 = acc * 10 + digit_val(s[i]);
        assert(s.subrange(i, j).skip(1) =~= s.subrange(i + 1, j));
        assert(digits_value_acc(s.subrange(i, j), acc) == digits_value_acc(
            s.subrange(i + 1, j),
            acc2,
        ));
        lemma_dva_lower(s.subrange(i + 1, j), acc2);
        lemma_parse_digits_region(s, i + 1, j, acc2);
    }
}

/// A decimal number written into `s` at `i`, ended by a non-digit, scans
/// back to its value.
proof fn lemma_parse_number_at(s: Seq<u8>, i: int, n: nat)
    requires
        0 <= i,
        n <= usize::MAX,
        i + dec_rep(n).len() < s.len(),
        s.subrange(i, i + dec_rep(n).len()) == dec_rep(n),
        !is_digit(s[i + dec_rep(n).len()]),
    ensures
        parse_number(s, i) == Parse::<nat>::Found(n, i + dec_rep(n).len()),
{
    let l = dec_rep(n).len() as int;
    lemma_dec_rep_digits(n);
    assert forall|k: int| i <= k < i + l implies is_digit(#[trigger] s[k]) by {
        assert(s.subrange(i, i + l)[k - i] == s[k]);
        assert(dec_rep(n)[k - i] == s[k]);
    }
    assert(s[i] == dec_rep(n)[0]) by {
        assert(s.subrange(i, i + l)[0] == s[i]);
    }
    lemma_dec_rep_value(n);
    lemma_parse_digits_region(s, i, i + l, 0);
}

/// One encoded bulk string sitting in `s` at `i` scans back to its
/// payload, consuming exactly its own length.
proof fn lemma_parse_bulk_at(s: Seq<u8>, i: int, b: Seq<u8>)
    requires
        0 <= i,
        b.len() <= usize::MAX,
        i + spec_encode_bulk(b).len() <= s.len(),
        s.subrange(i, i + spec_encode_bulk(b).len()) == spec_encode_bulk(b),
    ensures
        parse_bulk(s, i) == Parse::<Seq<u8>>::Found(b, i + spec_encode_bulk(b).len()),
{
    let enc = spec_encode_bulk(b);
    let l = enc.len() as int;
    let dl = dec_rep(b.len()).len() as int;
    assert(l == 1 + dl + 2 + b.len() + 2);
    assert forall|d: int| 0 <= d < l implies s[i + d] == enc[d] by {
        assert(s.subrange(i, i + l)[d] == s[i + d]);
    }
    assert(enc[0] == DOLLAR);
    assert(s[i] == DOLLAR);
    // the length line
    assert forall|q: int| 0 <= q < dl implies enc[1 + q] == dec_rep(b.len())[q] by {}
    assert(s.subrange(i + 1, i + 1 + dl) =~= dec_rep(b.len()));
    assert(enc[1 + dl] == CR);
    assert(!is_digit(CR));
    lemma_parse_number_at(s, i + 1, b.len());
    let j = i + 1 + dl;
    assert(parse_number(s, i + 1) == Parse::<nat>::Found(b.len(), j));
    // terminator after the length
    assert(enc[1 + dl + 1] == LF);
    assert(s[j] == CR && s[j + 1] == LF);
    assert(parse_crlf(s, j) == Parse::<()>::Found((), j + 2));
    let k = j + 2;
    // the payload itself
    assert forall|q: int| 0 <= q < b.len() implies enc[3 + dl + q] == b[q] by {}
    assert(s.subrange(k, k + b.len()) =~= b);
    // terminator after the payload
    assert(enc[3 + dl + b.len()] == CR);
    assert(enc[4 + dl + b.len()] == LF);
    assert(s[k + b.len()] == CR && s[k + b.len() + 1] == LF);
    assert(parse_crlf(s, k + b.len()) == Parse::<()>::Found((), i + l));
}

/// A run of encoded bulk strings sitting in `s` at `i` scans back to the
/// original arguments.
proof fn lemma_parse_bulks_at(s: Seq<u8>, i: int, args: Seq<Seq<u8>>)
    requires
        0 <= i,
        forall|q: int| 0 <= q < args.len() ==> #[trigger] args[q].len() <= usize::MAX,
        i + spec_encode_bulks(args).len() <= s.len(),
        s.subrange(i, i + spec_encode_bulks(args).len()) == spec_encode_bulks(args),
    ensures
        parse_bulks(s, i, args.len()) == Parse::<Seq<Seq<u8>>>::Found(
            args,
            i + spec_encode_bulks(args).len(),
        ),
    decreases args.len(),
{
    let el = spec_encode_bulks(args).len() as int;
    if args.len() == 0 {
        assert(args =~~= Seq::<Seq<u8>>::empty());
    } else {
        let enc0 = spec_encode_bulk(args[0]);
        let l0 = enc0.len() as int;
        let rest = spec_encode_bulks(args.skip(1));
        assert(spec_encode_bulks(args) == enc0 + rest);
        assert(s.subrange(i, i + l0) =~= enc0) by {
            assert forall|d: int| 0 <= d < el implies s[i + d] == spec_encode_bulks(args)[d] by {
                assert(s.subrange(i, i + el)[d] == s[i + d]);
            }
        }
        lemma_parse_bulk_at(s, i, args[0]);
        assert forall|q: int| 0 <= q < el - l0 implies s.subrange(i + l0, i + el)[q] == rest[q] by {
            assert(s.subrange(i, i + el)[l0 + q] == s[i + l0 + q]);
            assert(spec_encode_bulks(args)[l0 + q] == rest[q]);
        }
        assert(s.subrange(i + l0, i + el) =~= rest);
        lemma_parse_bulks_at(s, i + l0, args.skip(1));
        assert(seq![args[0]] + args.skip(1) =~~= args);
    }
}

/// A whole encoded frame at the front of `s` scans back to the original
/// arguments, consuming exactly the frame, whatever follows it in the
/// buffer.
pub proof fn lemma_parse_frame_of_encode(s: Seq<u8>, args: Seq<Seq<u8>>)
    requires
        args.len() <= usize::MAX,
        forall|q: int| 0 <= q < args.len() ==> #[trigger] args[q].len() <= usize::MAX,
        spec_encode_frame(args).len() <= s.len(),
        s.subrange(0, spec_encode_frame(args).len() as int) == spec_encode_frame(args),
    ensures
        parse_frame(s) == Parse::<Seq<Seq<u8>>>::Found(args, spec_encode_frame(args).len() as int),
{
    let enc = spec_encode_frame(args);
    let fl = enc.len() as int;
    let dl = dec_rep(args.len()).len() as int;
    assert forall|d: int| 0 <= d < fl implies s[d] == enc[d] by {
        assert(s.subrange(0, fl)[d] == s[d]);
    }
    assert(enc[0] == STAR);
    assert(s[0] == STAR);
    lemma_dec_rep_digits(args.len());
    assert(s.subrange(1, 1 + dl) =~= dec_rep(args.len()));
    assert(enc[1 + dl] == CR);
    assert(!is_digit(CR));
    lemma_parse_number_at(s, 1, args.len());
    let j = 1 + dl;
    assert(enc[1 + dl + 1] == LF);
    assert(s[j] == CR && s[j + 1] == LF);
    assert(parse_crlf(s, j) == Parse::<()>::Found((), j + 2));
    let k = j + 2;
    assert(s.subrange(k, fl) =~= spec_encode_bulks(args));
    lemma_parse_bulks_at(s, k, args);
}

/// A digit run that scans to `Found` ends at a position inside the
/// buffer, at or past where it began.
proof fn lemma_digits_pos(t: Seq<u8>, i: int, acc: nat, v: nat, j: int)
    requires
        parse_digits(t, i, acc) == Parse::<nat>::Found(v, j),
    ensures
        i <= j < t.len(),
    decreases t.len() - i,
{
    if 0 <= i < t.len() && is_digit(t[i]) && acc * 10 + digit_val(t[i]) <= usize::MAX as nat {
        lemma_digits_pos(t, i + 1, acc * 10 + digit_val(t[i]), v, j);
    }
}

/// Truncating a buffer below the end of a scanned digit run leaves the
/// scan asking for more bytes; a cut past the run's terminator leaves
/// it unchanged.
proof fn lemma_digits_truncated(t: Seq<u8>, ln: int, i: int, acc: nat, v: nat, j: int)
    requires
        0 <= i <= ln <= t.len(),
        parse_digits(t, i, acc) == Parse::<nat>::Found(v, j),
    ensures
        i <= j < t.len(),
        parse_digits(t.subrange(0, ln), i, acc) == if j < ln {
            Parse::<nat>::Found(v, j)
        } else {
            Parse::<nat>::More
        },
    decreases t.len() - i,
{
    lemma_digits_pos(t, i, acc, v, j);
    let s = t.subrange(0, ln);
    if !is_digit(t[i]) {
        if i < ln {
            assert(s[i] == t[i]);
        }
    } else {
        if i < ln {
            assert(s[i] == t[i]);
            lemma_digits_truncated(t, ln, i + 1, acc * 10 + digit_val(t[i]), v, j);
        }
    }
}

/// The same, for a whole number: a cut at or before the digit run's
/// terminator asks for more.
proof fn lemma_number_truncated(t: Seq<u8>, ln: int, i: int, v: nat, j: int)
    requires
        0 <= i <= ln <= t.len(),
        parse_number(t, i) == Parse::<nat>::Found(v, j),
    ensures
        i <= j < t.len(),
        parse_number(t.subrange(0, ln), i) == if j < ln {
            Parse::<nat>::Found(v, j)
        } else {
            Parse::<nat>::More
        },
{
    let s = t.subrange(0, ln);
    if i < ln {
        assert(s[i] == t[i]);
    }
    lemma_digits_truncated(t, ln, i, 0, v, j);
}

/// The same, for a line terminator: a cut inside it asks for more.
proof fn lemma_crlf_truncated(t: Seq<u8>, ln: int, i: int, j: int)
    requires
        0 <= i <= ln <= t.len(),
        parse_crlf(t, i) == Parse::<()>::Found((), j),
    ensures
        j == i + 2,
        parse_crlf(t.subrange(0, ln), i) == if j <= ln {
            Parse::<()>::Found((), j)
        } else {
            Parse::<()>::More
        },
{
    let s = t.subrange(0, ln);
    if i < ln {
        assert(s[i] == t[i]);
    }
    if i + 1 < ln {
        assert(s[i + 1] == t[i + 1]);
    }
}

/// The same, for one bulk string: a cut anywhere inside it asks for
/// more; a cut at or past its end leaves it whole.
proof fn lemma_bulk_truncated(t: Seq<u8>, ln: int, i: int, b: Seq<u8>, m: int)
    requires
        0 <= i <= ln <= t.len(),
        parse_bulk(t, i) == Parse::<Seq<u8>>::Found(b, m),
    ensures
        i < m <= t.len(),
        parse_bulk(t.subrange(0, ln), i) == if m <= ln {
            Parse::<Seq<u8>>::Found(b, m)
        } else {
            Parse::<Seq<u8>>::More
        },
{
    let s = t.subrange(0, ln);
    match parse_number(t, i + 1) {
        Parse::Found(len, j) => {
            match parse_crlf(t, j) {
                Parse::Found(_, k0) => {
                    let k = j + 2;
                    assert(k0 == k);
                    assert(k + len <= t.len());
                    match parse_crlf(t, k + len) {
                        Parse::Found(_, m2) => {
                            assert(m == k + len + 2);
                            assert(k + len + 1 < t.len());
                            if i < ln {
                                assert(s[i] == t[i]);
                                lemma_number_truncated(t, ln, i + 1, len, j);
                                if j < ln {
                                    lemma_crlf_truncated(t, ln, j, k);
                                    if k <= ln {
                                        if k + len <= ln {
                                            lemma_crlf_truncated(t, ln, k + len, m);
                                            if m <= ln {
                                                assert(s.subrange(k, k + len) =~= t.subrange(
                                                    k,
                                                    k + len,
                                                ));
                                            }
                                        } else {
                                            assert(k + len > s.len());
                                        }
                                    }
                                } else {
                                    lemma_number_truncated(
                                        t,
                                        t.len() as int,
                                        i + 1,
                                        len,
                                        j,
                                    );
                                    assert(m > ln);
                                }
                            } else {
                                lemma_number_truncated(t, t.len() as int, i + 1, len, j);
                                assert(i >= s.len());
                                assert(m > i >= ln);
                            }
                        },
                        _ => {
                            assert(false);
                        },
                    }
                },
                _ => {
                    assert(false);
                },
            }
        },
        _ => {
            assert(false);
        },
    }
}

/// A run of bulk strings that scans to `Found` ends inside the buffer,
/// at or past where it began.
proof fn lemma_bulks_pos(t: Seq<u8>, i: int, n: nat, vs: Seq<Seq<u8>>, m: int)
    requires
        0 <= i <= t.len(),
        parse_bulks(t, i, n) == Parse::<Seq<Seq<u8>>>::Found(vs, m),
    ensures
        i <= m <= t.len(),
    decreases n,
{
    if n > 0 {
        match parse_bulk(t, i) {
            Parse::Found(b, j) => {
                lemma_bulk_truncated(t, t.len() as int, i, b, j);
                match parse_bulks(t, j, (n - 1) as nat) {
                    Parse::Found(rest, m2) => {
                        lemma_bulks_pos(t, j, (n - 1) as nat, rest, m);
                    },
                    _ => {
                        assert(false);
                    },
                }
            },
            _ => {
                assert(false);
            },
        }
    }
}

/// The same, for a run of bulk strings.
proof fn lemma_bulks_truncated(t: Seq<u8>, ln: int, i: int, n: nat, vs: Seq<Seq<u8>>, m: int)
    requires
        0 <= i <= ln <= t.len(),
        parse_bulks(t, i, n) == Parse::<Seq<Seq<u8>>>::Found(vs, m),
    ensures
        i <= m <= t.len(),
        parse_bulks(t.subrange(0, ln), i, n) == if m <= ln {
            Parse::<Seq<Seq<u8>>>::Found(vs, m)
        } else {
            Parse::<Seq<Seq<u8>>>::More
        },
    decreases n,
{
    lemma_bulks_pos(t, i, n, vs, m);
    if n > 0 {
        match parse_bulk(t, i) {
            Parse::Found(b, j) => {
                match parse_bulks(t, j, (n - 1) as nat) {
                    Parse::Found(rest, m2) => {
                        assert(m2 == m);
                        lemma_bulk_truncated(t, ln, i, b, j);
                        if j <= ln {
                            lemma_bulks_truncated(t, ln, j, (n - 1) as nat, rest, m);
                        } else {
                            lemma_bulks_pos(t, j, (n - 1) as nat, rest, m);
                            assert(m >= j > ln);
                        }
                    },
                    _ => {
                        assert(false);
                    },
                }
            },
            _ => {
                assert(false);
            },
        }
    }
}

/// Truncating a buffer that holds a whole frame: a cut at or past the
/// frame's end changes nothing, and a cut anywhere inside the frame
/// reads as incomplete — the scan never guesses a boundary from partial
/// data.
pub proof fn lemma_frame_truncated(t: Seq<u8>, ln: int, args: Seq<Seq<u8>>, m: int)
    requires
        0 <= ln <= t.len(),
        parse_frame(t) == Parse::<Seq<Seq<u8>>>::Found(args, m),
    ensures
        parse_frame(t.subrange(0, ln)) == if m <= ln {
            Parse::<Seq<Seq<u8>>>::Found(args, m)
        } else {
            Parse::<Seq<Seq<u8>>>::More
        },
{
    let s = t.subrange(0, ln);
    assert(t.len() > 0 && t[0] == STAR);
    match parse_number(t, 1) {
        Parse::Found(n0, j) => {
            match parse_crlf(t, j) {
                Parse::Found(_, k) => {
                    assert(k == j + 2);
                    assert(parse_bulks(t, k, n0) == Parse::<Seq<Seq<u8>>>::Found(args, m));
                    lemma_number_truncated(t, t.len() as int, 1, n0, j);
                    lemma_bulks_pos(t, k, n0, args, m);
                    assert(m >= k == j + 2 >= 3);
                    if ln == 0 {
                        assert(parse_frame(s) is More);
                    } else {
                        assert(s[0] == t[0]);
                        lemma_number_truncated(t, ln, 1, n0, j);
                        if j < ln {
                            lemma_crlf_truncated(t, ln, j, k);
                            if k <= ln {
                                lemma_bulks_truncated(t, ln, k, n0, args, m);
                            } else {
                                assert(m >= k > ln);
                            }
                        } else {
                            assert(m >= k >= j + 2 > ln);
                        }
                    }
                },
                _ => {
                    assert(false);
                },
            }
        },
        _ => {
            assert(false);
        },
    }
}

/// Round trip: encoding any argument list and scanning the result —
/// possibly followed by further bytes already sitting in the buffer —
/// yields back exactly the original arguments, byte for byte, and
/// consumes exactly the encoded frame. In particular a bulk string whose
/// declared length is `n` is read back as exactly those `n` bytes, even
/// where they contain line terminators.
pub proof fn lemma_encode_decode_roundtrip(args: Seq<Seq<u8>>, tail: Seq<u8>)
    requires
        args.len() <= usize::MAX,
        forall|q: int| 0 <= q < args.len() ==> #[trigger] args[q].len() <= usize::MAX,
    ensures
        parse_frame(spec_encode_frame(args) + tail) == Parse::<Seq<Seq<u8>>>::Found(
            args,
            spec_encode_frame(args).len() as int,
        ),
{
    let s = spec_encode_frame(args) + tail;
    assert(s.subrange(0, spec_encode_frame(args).len() as int) =~= spec_encode_frame(args));
    lemma_parse_frame_of_encode(s, args);
}

/// Law: a buffer that stops anywhere short of a frame reads as
/// incomplete, never as some other frame: the scan waits for the
/// declared bytes instead of guessing a boundary from partial data.
pub proof fn lemma_partial_frame_incomplete(args: Seq<Seq<u8>>, ln: int)
    requires
        args.len() <= usize::MAX,
        forall|q: int| 0 <= q < args.len() ==> #[trigger] args[q].len() <= usize::MAX,
        0 <= ln < spec_encode_frame(args).len(),
    ensures
        parse_frame(spec_encode_frame(args).subrange(0, ln)) is More,
{
    let enc = spec_encode_frame(args);
    assert(enc.subrange(0, enc.len() as int) =~= enc);
    lemma_parse_frame_of_encode(enc, args);
    lemma_frame_truncated(enc, ln, args, enc.len() as int);
}

} // verus!
