//! Wire framing for the control socket.
//!
//! Two message shapes share one outbound byte stream per client:
//!
//! * a command response `<total-length>:<status>:<message>` followed by a
//!   newline, where `<status>` is `ok` or `err` and `<total-length>` is the
//!   byte length of `<status> + ":" + <message>` (the message may contain
//!   embedded line breaks);
//! * a broadcast event `!<total-length>:<guid>:<name>:<statusLabel>`
//!   followed by a newline, which may be interleaved with a response at any
//!   line boundary.
//!
//! A reader consumes the stream line by line: lines beginning with `!` are
//! events; the first other line is the response header, and further lines
//! (each standing for a newline plus the line) extend the message until the
//! declared byte count is reached.

use vstd::prelude::*;

verus! {

/// Decimal representation of `n`, most significant digit first, as ASCII
/// bytes. Never empty; no leading zero except for `n == 0` itself.
pub open spec fn dec_rep(n: nat) -> Seq<u8>
    decreases n,
{
    if n < 10 {
        seq![(48 + n) as u8]
    } else {
        dec_rep(n / 10).push((48 + n % 10) as u8)
    }
}

/// The wire form of a response status flag: `ok` or `err`.
pub open spec fn status_bytes(ok: bool) -> Seq<u8> {
    if ok {
        seq![111u8, 107u8]
    } else {
        seq![101u8, 114u8, 114u8]
    }
}

/// The length-counted part of a response: `<status>:<message>`.
pub open spec fn response_payload(ok: bool, msg: Seq<u8>) -> Seq<u8> {
    status_bytes(ok) + seq![58u8] + msg
}

/// A full response frame: `<total-length>:<status>:<message>\n`.
pub open spec fn response_frame(ok: bool, msg: Seq<u8>) -> Seq<u8> {
    dec_rep(response_payload(ok, msg).len()) + seq![58u8] + response_payload(ok, msg)
        + seq![10u8]
}

/// The length-counted part of a broadcast event: `<guid>:<name>:<label>`.
pub open spec fn event_payload(guid: Seq<u8>, name: Seq<u8>, label: Seq<u8>) -> Seq<u8> {
    guid + seq![58u8] + name + seq![58u8] + label
}

/// A full event frame: `!<total-length>:<guid>:<name>:<label>\n`.
pub open spec fn event_frame(guid: Seq<u8>, name: Seq<u8>, label: Seq<u8>) -> Seq<u8> {
    seq![33u8] + dec_rep(event_payload(guid, name, label).len()) + seq![58u8]
        + event_payload(guid, name, label) + seq![10u8]
}

/// Every byte of a decimal representation is an ASCII digit.
pub proof fn lemma_dec_rep_digits(n: nat)
    ensures
        dec_rep(n).len() >= 1,
        forall|i: int| 0 <= i < dec_rep(n).len() ==> 48 <= #[trigger] dec_rep(n)[i] <= 57,
    decreases n,
{
    if n >= 10 {
        lemma_dec_rep_digits(n / 10);
    }
}

/// Appends every byte of `src` to `dst`.
fn push_all(dst: &mut Vec<u8>, src: &[u8])
    ensures
        final(dst)@ == old(dst)@ + src@,
{
    let mut i: usize = 0;
    while i < src.len()
        invariant
            i <= src@.len(),
            dst@ == old(dst)@ + src@.subrange(0, i as int),
        decreases src@.len() - i,
    {
        dst.push(src[i]);
        i = i + 1;
        assert(src@.subrange(0, i as int) == src@.subrange(0, i - 1).push(src@[i - 1]));
    }
    assert(src@.subrange(0, src@.len() as int) == src@);
}

/// The decimal digits of `n`, as ASCII bytes.
fn dec_digits(n: usize) -> (r: Vec<u8>)
    ensures
        r@ == dec_rep(n as nat),
    decreases n,
{
    if n < 10 {
        let mut v: Vec<u8> = Vec::new();
        v.push(48 + n as u8);
        assert(v@ == Seq::<u8>::empty().push((48 + n) as u8));
        assert(Seq::<u8>::empty().push((48 + n) as u8) == dec_rep(n as nat));
        v
    } else {
        let mut v = dec_digits(n / 10);
        v.push(48 + (n % 10) as u8);
        v
    }
}

/// Encodes a command response frame from its status flag and message bytes.
pub fn encode_response(ok: bool, msg: &[u8]) -> (r: Vec<u8>)
    requires
        msg@.len() + 4 <= usize::MAX,
    ensures
        r@ == response_frame(ok, msg@),
{
    let mut status: Vec<u8> = Vec::new();
    if ok {
        status.push(111);
        status.push(107);
    } else {
        status.push(101);
        status.push(114);
        status.push(114);
    }
    assert(status@ =~= status_bytes(ok));
    let payload_len: usize = status.len() + 1 + msg.len();
    let mut r = dec_digits(payload_len);
    r.push(58);
    r.append(&mut status);
    r.push(58);
    push_all(&mut r, msg);
    r.push(10);
    assert(r@ =~= response_frame(ok, msg@));
    r
}

/// Encodes a broadcast event frame from its guid, name and status label
/// bytes.
pub fn encode_event(guid: &[u8], name: &[u8], label: &[u8]) -> (r: Vec<u8>)
    requires
        guid@.len() + name@.len() + label@.len() + 2 <= usize::MAX,
    ensures
        r@ == event_frame(guid@, name@, label@),
        r@.len() > 0 && r@[0] == 33u8,
{
    let payload_len: usize = guid.len() + 1 + name.len() + 1 + label.len();
    let mut r: Vec<u8> = Vec::new();
    r.push(33);
    let mut digits = dec_digits(payload_len);
    r.append(&mut digits);
    r.push(58);
    push_all(&mut r, guid);
    r.push(58);
    push_all(&mut r, name);
    r.push(58);
    push_all(&mut r, label);
    r.push(10);
    assert(r@ =~= event_frame(guid@, name@, label@));
    r
}

/// Numeric value of a big-endian sequence of ASCII digit bytes.
pub open spec fn digits_val(s: Seq<u8>) -> nat
    decreases s.len(),
{
    if s.len() == 0 {
        0
    } else {
        (digits_val(s.drop_last()) * 10 + (s.last() - 48)) as nat
    }
}

/// Every byte of `s` is an ASCII digit.
pub open spec fn all_digits(s: Seq<u8>) -> bool {
    forall|i: int| 0 <= i < s.len() ==> 48 <= #[trigger] s[i] <= 57
}

/// Reading back the decimal representation of `n` yields `n`.
pub proof fn lemma_dec_rep_val(n: nat)
    ensures
        digits_val(dec_rep(n)) == n,
    decreases n,
{
    if n < 10 {
        let s = dec_rep(n);
        assert(s =~= seq![(48 + n) as u8]);
        assert(s.drop_last() =~= Seq::<u8>::empty());
        assert(digits_val(s.drop_last()) == 0);
        assert(s.last() == (48 + n) as u8);
    } else {
        lemma_dec_rep_val(n / 10);
        assert(dec_rep(n).drop_last() =~= dec_rep(n / 10));
        assert(dec_rep(n).last() == (48 + n % 10) as u8);
    }
}

/// Index of the first occurrence of `b` in `s`, or `-1` when absent.
pub open spec fn find_byte(s: Seq<u8>, b: u8) -> int
    decreases s.len(),
{
    if s.len() == 0 {
        -1
    } else if s[0] == b {
        0
    } else {
        let r = find_byte(s.drop_first(), b);
        if r == -1 {
            -1
        } else {
            r + 1
        }
    }
}

/// `find_byte` returns the least index holding `b`, or `-1` when no byte
/// of `s` is `b`.
pub proof fn lemma_find_byte(s: Seq<u8>, b: u8)
    ensures
        find_byte(s, b) == -1 ==> forall|i: int| 0 <= i < s.len() ==> s[i] != b,
        find_byte(s, b) != -1 ==> 0 <= find_byte(s, b) < s.len() && s[find_byte(s, b)] == b
            && forall|i: int| 0 <= i < find_byte(s, b) ==> s[i] != b,
    decreases s.len(),
{
    if s.len() > 0 && s[0] != b {
        let t = s.drop_first();
        lemma_find_byte(t, b);
        if find_byte(t, b) == -1 {
            assert forall|i: int| 0 <= i < s.len() implies s[i] != b by {
                if i > 0 {
                    assert(t[i - 1] == s[i]);
                }
            }
        } else {
            let r = find_byte(t, b);
            assert(s[r + 1] == t[r]);
            assert forall|i: int| 0 <= i < r + 1 implies s[i] != b by {
                if i > 0 {
                    assert(t[i - 1] == s[i]);
                }
            }
        }
    }
}

/// Splitting at the first `b` of `x + [b] + y` yields `x` and `y`, when `x`
/// itself is free of `b`.
pub proof fn lemma_find_byte_of_concat(x: Seq<u8>, y: Seq<u8>, b: u8)
    requires
        forall|i: int| 0 <= i < x.len() ==> x[i] != b,
    ensures
        find_byte(x + seq![b] + y, b) == x.len(),
        (x + seq![b] + y).subrange(0, x.len() as int) == x,
        (x + seq![b] + y).subrange(x.len() as int + 1, (x + seq![b] + y).len() as int) == y,
{
    let s = x + seq![b] + y;
    lemma_find_byte(s, b);
    assert(s[x.len() as int] == b);
    let r = find_byte(s, b);
    assert(r != -1);
    if r < x.len() {
        assert(s[r] == x[r]);
        assert(false);
    }
    if r > x.len() {
        assert(s[x.len() as int] != b);
        assert(false);
    }
    assert(s.subrange(0, x.len() as int) =~= x);
    assert(s.subrange(x.len() as int + 1, s.len() as int) =~= y);
}

/// Result of reading a response header line `<length>:<status>:<chunk>`:
/// the declared payload length, the status flag, and the first message
/// chunk. `None` when the line is not such a header.
pub open spec fn parse_header(l: Seq<u8>) -> Option<(nat, bool, Seq<u8>)> {
    let i = find_byte(l, 58);
    if i <= 0 {
        None
    } else {
        let d = l.subrange(0, i);
        let rest = l.subrange(i + 1, l.len() as int);
        if all_digits(d) && digits_val(d) <= usize::MAX {
            let j = find_byte(rest, 58);
            if j == -1 {
                None
            } else {
                let st = rest.subrange(0, j);
                let chunk = rest.subrange(j + 1, rest.len() as int);
                if st == status_bytes(true) {
                    Some((digits_val(d), true, chunk))
                } else if st == status_bytes(false) {
                    Some((digits_val(d), false, chunk))
                } else {
                    None
                }
            }
        } else {
            None
        }
    }
}

/// A line that carries a broadcast event rather than response data.
pub open spec fn is_event_line(l: Seq<u8>) -> bool {
    l.len() > 0 && l[0] == 33u8
}

/// The reader algorithm after the header: keep consuming lines, skipping
/// event lines, appending a newline plus the line to `acc`, until
/// `remaining` more payload bytes have been seen.
pub open spec fn decode_rest(
    ls: Seq<Seq<u8>>,
    remaining: nat,
    ok: bool,
    acc: Seq<u8>,
) -> Option<(bool, Seq<u8>)>
    decreases ls.len(),
{
    if ls.len() == 0 {
        None
    } else if is_event_line(ls[0]) {
        decode_rest(ls.drop_first(), remaining, ok, acc)
    } else {
        let acc2 = acc + seq![10u8] + ls[0];
        if 1 + ls[0].len() >= remaining {
            Some((ok, acc2))
        } else {
            decode_rest(ls.drop_first(), (remaining - 1 - ls[0].len()) as nat, ok, acc2)
        }
    }
}

/// The reader algorithm over a sequence of received lines: skip event
/// lines, read the first other line as the header, then accumulate message
/// chunks until the declared byte count is reached.
pub open spec fn decode_lines(ls: Seq<Seq<u8>>) -> Option<(bool, Seq<u8>)>
    decreases ls.len(),
{
    if ls.len() == 0 {
        None
    } else if is_event_line(ls[0]) {
        decode_lines(ls.drop_first())
    } else {
        match parse_header(ls[0]) {
            None => None,
            Some((declared, ok, chunk)) => {
                let consumed = status_bytes(ok).len() + 1 + chunk.len();
                if consumed >= declared {
                    Some((ok, chunk))
                } else {
                    decode_rest(ls.drop_first(), (declared - consumed) as nat, ok, chunk)
                }
            },
        }
    }
}

/// The views of a vector of received lines.
pub open spec fn lines_view(lines: Seq<Vec<u8>>) -> Seq<Seq<u8>> {
    lines.map_values(|l: Vec<u8>| l@)
}

/// Value of a nonempty run of digit bytes, refusing values above
/// `usize::MAX`.
fn parse_usize(s: &[u8]) -> (r: Option<usize>)
    ensures
        match r {
            Some(v) => s@.len() > 0 && all_digits(s@) && digits_val(s@) == v as nat,
            None => !(s@.len() > 0 && all_digits(s@) && digits_val(s@) <= usize::MAX),
        },
{
    if s.len() == 0 {
        return None;
    }
    let mut acc: usize = 0;
    let mut i: usize = 0;
    while i < s.len()
        invariant
            i <= s@.len(),
            all_digits(s@.subrange(0, i as int)),
            acc as nat == digits_val(s@.subrange(0, i as int)),
        decreases s@.len() - i,
    {
        let b = s[i];
        if b < 48 || b > 57 {
            return None;
        }
        let step = match acc.checked_mul(10) {
            Some(m) => m.checked_add((b - 48) as usize),
            None => None,
        };
        match step {
            Some(v) => {
                acc = v;
            },
            None => {
                proof {
                    if all_digits(s@) {
                        lemma_digits_val_grows(s@, i + 1);
                        assert(s@.subrange(0, i + 1).drop_last() =~= s@.subrange(0, i as int));
                        assert(s@.subrange(0, i + 1).last() == s@[i as int]);
                        assert(digits_val(s@.subrange(0, i + 1)) > usize::MAX);
                    }
                }
                return None;
            },
        }
        i = i + 1;
        proof {
            assert(s@.subrange(0, i as int).drop_last() =~= s@.subrange(0, i - 1));
        }
    }
    proof {
        assert(s@.subrange(0, s@.len() as int) =~= s@);
    }
    Some(acc)
}

/// A longer digit prefix never has a smaller value.
proof fn lemma_digits_val_grows(s: Seq<u8>, i: int)
    requires
        0 <= i <= s.len(),
        all_digits(s),
    ensures
        digits_val(s.subrange(0, i)) <= digits_val(s),
    decreases s.len() - i,
{
    if i < s.len() {
        lemma_digits_val_grows(s, i + 1);
        assert(s.subrange(0, i + 1).drop_last() =~= s.subrange(0, i));
        assert(digits_val(s.subrange(0, i)) <= digits_val(s.subrange(0, i + 1)));
    } else {
        assert(s.subrange(0, s.len() as int) =~= s);
    }
}

/// Copy of `l[from..to]`.
fn copy_range(l: &[u8], from: usize, to: usize) -> (r: Vec<u8>)
    requires
        from <= to <= l@.len(),
    ensures
        r@ == l@.subrange(from as int, to as int),
{
    let mut r: Vec<u8> = Vec::new();
    let mut i: usize = from;
    while i < to
        invariant
            from <= i <= to <= l@.len(),
            r@ == l@.subrange(from as int, i as int),
        decreases to - i,
    {
        r.push(l[i]);
        i = i + 1;
        assert(l@.subrange(from as int, i as int) =~= l@.subrange(from as int, i - 1).push(
            l@[i - 1],
        ));
    }
    r
}

/// Index of the first `b` in `l`, when there is one.
fn find_byte_exec(l: &[u8], b: u8) -> (r: Option<usize>)
    ensures
        match r {
            Some(i) => find_byte(l@, b) == i as int,
            None => find_byte(l@, b) == -1,
        },
{
    let mut i: usize = 0;
    while i < l.len()
        invariant
            i <= l@.len(),
            forall|k: int| 0 <= k < i ==> l@[k] != b,
        decreases l@.len() - i,
    {
        if l[i] == b {
            proof {
                lemma_find_byte(l@, b);
            }
            return Some(i);
        }
        i = i + 1;
    }
    proof {
        lemma_find_byte(l@, b);
    }
    None
}

/// Reads one line as a response header, yielding the declared payload
/// length, the status flag, and the first message chunk.
fn parse_header_exec(l: &[u8]) -> (r: Option<(usize, bool, Vec<u8>)>)
    ensures
        match r {
            Some((declared, ok, chunk)) => parse_header(l@) == Some(
                ((declared as nat), ok, chunk@),
            ),
            None => parse_header(l@) is None,
        },
{
    let i = match find_byte_exec(l, 58) {
        Some(i) => i,
        None => {
            return None;
        },
    };
    if i == 0 {
        return None;
    }
    proof {
        lemma_find_byte(l@, 58);
    }
    let declared = match parse_usize(&l[0..i]) {
        Some(v) => v,
        None => {
            return None;
        },
    };
    let n = l.len();
    assert(i < l@.len());
    let rest = &l[i + 1..n];
    let j = match find_byte_exec(rest, 58) {
        Some(j) => j,
        None => {
            return None;
        },
    };
    let ghost st = rest@.subrange(0, j as int);
    proof {
        lemma_find_byte(rest@, 58);
    }
    let chunk = copy_range(rest, j + 1, rest.len());
    let ok: bool;
    if j == 2 && rest[0] == 111 && rest[1] == 107 {
        ok = true;
        proof {
            assert(st =~= status_bytes(true));
        }
    } else if j == 3 && rest[0] == 101 && rest[1] == 114 && rest[2] == 114 {
        ok = false;
        proof {
            assert(st =~= status_bytes(false));
            assert(st.len() != status_bytes(true).len());
        }
    } else {
        proof {
            if st == status_bytes(true) {
                assert(st.len() == 2 && st[0] == 111 && st[1] == 107);
                assert(false);
            }
            if st == status_bytes(false) {
                assert(st.len() == 3 && st[0] == 101 && st[1] == 114 && st[2] == 114);
                assert(false);
            }
        }
        return None;
    }
    Some((declared, ok, chunk))
}

/// Runs the reader algorithm of the module doc over received lines,
/// yielding the status flag and the reassembled message bytes.
pub fn decode_response(lines: &Vec<Vec<u8>>) -> (r: Option<(bool, Vec<u8>)>)
    ensures
        match r {
            Some((ok, msg)) => decode_lines(lines_view(lines@)) == Some((ok, msg@)),
            None => decode_lines(lines_view(lines@)) is None,
        },
{
    proof {
        assert(lines_view(lines@).skip(0) =~= lines_view(lines@));
    }
    decode_from(lines, 0)
}

/// `decode_response`, from line `i` on.
fn decode_from(lines: &Vec<Vec<u8>>, i: usize) -> (r: Option<(bool, Vec<u8>)>)
    requires
        i <= lines@.len(),
    ensures
        match r {
            Some((ok, msg)) => decode_lines(lines_view(lines@).skip(i as int)) == Some(
                (ok, msg@),
            ),
            None => decode_lines(lines_view(lines@).skip(i as int)) is None,
        },
    decreases lines@.len() - i,
{
    let ghost ls = lines_view(lines@).skip(i as int);
    if i == lines.len() {
        return None;
    }
    proof {
        assert(ls[0] == lines@[i as int]@);
        assert(ls.drop_first() =~= lines_view(lines@).skip(i + 1));
    }
    let line = &lines[i];
    if line.len() > 0 && line[0] == 33 {
        return decode_from(lines, i + 1);
    }
    assert(!is_event_line(ls[0]));
    match parse_header_exec(line.as_slice()) {
        None => None,
        Some((declared, ok, chunk)) => {
            let status_len: usize = if ok {
                2
            } else {
                3
            };
            if chunk.len() >= declared || status_len + 1 >= declared - chunk.len() {
                Some((ok, chunk))
            } else {
                let remaining = declared - chunk.len() - status_len - 1;
                decode_rest_from(lines, i + 1, remaining, ok, chunk)
            }
        },
    }
}

/// `decode_rest`, from line `i` on.
fn decode_rest_from(
    lines: &Vec<Vec<u8>>,
    i: usize,
    remaining: usize,
    ok: bool,
    acc: Vec<u8>,
) -> (r: Option<(bool, Vec<u8>)>)
    requires
        i <= lines@.len(),
        acc@.len() + remaining + 1 <= usize::MAX,
    ensures
        match r {
            Some((rok, msg)) => decode_rest(
                lines_view(lines@).skip(i as int),
                remaining as nat,
                ok,
                acc@,
            ) == Some((rok, msg@)),
            None => decode_rest(
                lines_view(lines@).skip(i as int),
                remaining as nat,
                ok,
                acc@,
            ) is None,
        },
    decreases lines@.len() - i,
{
    let ghost ls = lines_view(lines@).skip(i as int);
    if i == lines.len() {
        return None;
    }
    proof {
        assert(ls[0] == lines@[i as int]@);
        assert(ls.drop_first() =~= lines_view(lines@).skip(i + 1));
    }
    let line = &lines[i];
    if line.len() > 0 && line[0] == 33 {
        return decode_rest_from(lines, i + 1, remaining, ok, acc);
    }
    assert(!is_event_line(ls[0]));
    let mut acc2 = acc;
    acc2.push(10);
    push_all(&mut acc2, line.as_slice());
    assert(acc2@ =~= acc@ + seq![10u8] + ls[0]);
    if line.len() >= remaining || remaining - line.len() <= 1 {
        Some((ok, acc2))
    } else {
        decode_rest_from(lines, i + 1, remaining - line.len() - 1, ok, acc2)
    }
}

/// The chunks of `s` between newline bytes. Never empty; `s` itself when
/// `s` holds no newline.
pub open spec fn split_nl(s: Seq<u8>) -> Seq<Seq<u8>>
    decreases s.len(),
{
    if s.len() == 0 {
        seq![Seq::<u8>::empty()]
    } else if s[0] == 10 {
        seq![Seq::<u8>::empty()] + split_nl(s.drop_first())
    } else {
        let r = split_nl(s.drop_first());
        seq![seq![s[0]] + r[0]] + r.drop_first()
    }
}

pub proof fn lemma_split_nl_len(s: Seq<u8>)
    ensures
        split_nl(s).len() >= 1,
    decreases s.len(),
{
    if s.len() > 0 {
        lemma_split_nl_len(s.drop_first());
    }
}

/// Concatenation of chunks, each preceded by a newline byte.
pub open spec fn join_tail(cs: Seq<Seq<u8>>) -> Seq<u8>
    decreases cs.len(),
{
    if cs.len() == 0 {
        Seq::<u8>::empty()
    } else {
        seq![10u8] + cs[0] + join_tail(cs.drop_first())
    }
}

/// Concatenation of chunks with a newline byte between each neighbouring
/// pair.
pub open spec fn join_nl(cs: Seq<Seq<u8>>) -> Seq<u8> {
    if cs.len() == 0 {
        Seq::<u8>::empty()
    } else {
        cs[0] + join_tail(cs.drop_first())
    }
}

/// Splitting on newlines and joining again is the identity.
pub proof fn lemma_split_join(s: Seq<u8>)
    ensures
        join_nl(split_nl(s)) == s,
    decreases s.len(),
{
    if s.len() == 0 {
        assert(join_nl(split_nl(s)) =~= s);
    } else {
        let t = s.drop_first();
        lemma_split_join(t);
        lemma_split_nl_len(t);
        let r = split_nl(t);
        if s[0] == 10 {
            assert(split_nl(s) == seq![Seq::<u8>::empty()] + r);
            assert(split_nl(s).drop_first() =~= r);
            assert(split_nl(s)[0] =~= Seq::<u8>::empty());
            assert(join_tail(r) =~= seq![10u8] + join_nl(r));
            assert(join_nl(split_nl(s)) =~= seq![10u8] + t);
            assert(seq![10u8] + t =~= s);
        } else {
            assert(split_nl(s) == seq![seq![s[0]] + r[0]] + r.drop_first());
            assert(split_nl(s)[0] == seq![s[0]] + r[0]);
            assert(split_nl(s).drop_first() =~= r.drop_first());
            assert(join_nl(split_nl(s)) =~= seq![s[0]] + (r[0] + join_tail(r.drop_first())));
            assert(r[0] + join_tail(r.drop_first()) == join_nl(r));
            assert(seq![s[0]] + t =~= s);
        }
    }
}

/// The lines that one encoded response frame occupies on the stream:
/// the header line, then one line per embedded newline of the message.
pub open spec fn frame_lines(ok: bool, msg: Seq<u8>) -> Seq<Seq<u8>> {
    let cs = split_nl(msg);
    seq![
        dec_rep(response_payload(ok, msg).len()) + seq![58u8] + status_bytes(ok) + seq![58u8]
            + cs[0],
    ] + cs.drop_first()
}

/// Joining the frame's lines with newlines, plus the final newline, gives
/// back the encoded frame bytes.
pub proof fn lemma_frame_lines_join(ok: bool, msg: Seq<u8>)
    ensures
        join_nl(frame_lines(ok, msg)) + seq![10u8] == response_frame(ok, msg),
{
    let cs = split_nl(msg);
    lemma_split_nl_len(msg);
    lemma_split_join(msg);
    let fl = frame_lines(ok, msg);
    assert(fl[0] == dec_rep(response_payload(ok, msg).len()) + seq![58u8] + status_bytes(ok)
        + seq![58u8] + cs[0]);
    assert(fl.drop_first() =~= cs.drop_first());
    assert(join_nl(fl) + seq![10u8] =~= response_frame(ok, msg));
}

/// `ls` is `fs` in order, with lines beginning with `!` allowed in between
/// and anything at all allowed after the last line of `fs`.
pub open spec fn interleaved(ls: Seq<Seq<u8>>, fs: Seq<Seq<u8>>) -> bool
    decreases ls.len(),
{
    if fs.len() == 0 {
        true
    } else if ls.len() == 0 {
        false
    } else {
        (is_event_line(ls[0]) && interleaved(ls.drop_first(), fs)) || (ls[0] == fs[0]
            && interleaved(ls.drop_first(), fs.drop_first()))
    }
}

proof fn lemma_decode_rest_round_trip(ls: Seq<Seq<u8>>, cs: Seq<Seq<u8>>, ok: bool, acc: Seq<u8>)
    requires
        cs.len() >= 1,
        forall|i: int| 0 <= i < cs.len() ==> !is_event_line(#[trigger] cs[i]),
        interleaved(ls, cs),
    ensures
        decode_rest(ls, join_tail(cs).len(), ok, acc) == Some((ok, acc + join_tail(cs))),
    decreases ls.len(),
{
    assert(ls.len() > 0);
    if is_event_line(ls[0]) {
        assert(ls[0] != cs[0]);
        lemma_decode_rest_round_trip(ls.drop_first(), cs, ok, acc);
    } else {
        assert(ls[0] == cs[0] && interleaved(ls.drop_first(), cs.drop_first()));
        let jt2 = join_tail(cs.drop_first());
        assert(join_tail(cs) == seq![10u8] + cs[0] + jt2);
        let remaining = join_tail(cs).len();
        let acc2 = acc + seq![10u8] + ls[0];
        if cs.len() == 1 {
            assert(cs.drop_first().len() == 0);
            assert(jt2 =~= Seq::<u8>::empty());
            assert(remaining == 1 + cs[0].len());
            assert(acc2 =~= acc + join_tail(cs));
        } else {
            assert(cs.drop_first().len() >= 1);
            assert(jt2.len() >= 1);
            assert(1 + ls[0].len() < remaining);
            assert(remaining - 1 - ls[0].len() == jt2.len());
            assert forall|i: int| 0 <= i < cs.drop_first().len() implies !is_event_line(
                #[trigger] cs.drop_first()[i],
            ) by {
                assert(cs.drop_first()[i] == cs[i + 1]);
            }
            lemma_decode_rest_round_trip(ls.drop_first(), cs.drop_first(), ok, acc2);
            assert(acc2 + jt2 =~= acc + join_tail(cs));
        }
    }
}

/// Round trip: the bytes of an encoded response, read back line by line by
/// the reader algorithm, reconstruct the status flag and the message
/// exactly — embedded line breaks included — even when whole broadcast
/// event lines are interleaved anywhere in the stream. The one demand on
/// the message is that none of its inner lines begins with the event
/// marker `!`, which the reader could not tell from an event.
pub proof fn lemma_response_round_trip(ok: bool, msg: Seq<u8>, ls: Seq<Seq<u8>>)
    requires
        response_payload(ok, msg).len() <= usize::MAX,
        interleaved(ls, frame_lines(ok, msg)),
        forall|i: int| 1 <= i < split_nl(msg).len() ==> !is_event_line(#[trigger] split_nl(msg)[i]),
    ensures
        decode_lines(ls) == Some((ok, msg)),
    decreases ls.len(),
{
    let fs = frame_lines(ok, msg);
    let cs = split_nl(msg);
    let pl = response_payload(ok, msg).len();
    lemma_split_nl_len(msg);
    lemma_split_join(msg);
    lemma_dec_rep_digits(pl);
    let h = fs[0];
    assert(h[0] == dec_rep(pl)[0]);
    assert(48 <= h[0] <= 57);
    assert(!is_event_line(h));
    assert(ls.len() > 0);
    if is_event_line(ls[0]) {
        assert(ls[0] != fs[0]);
        lemma_response_round_trip(ok, msg, ls.drop_first());
    } else {
        assert(ls[0] == fs[0] && interleaved(ls.drop_first(), fs.drop_first()));
        let sb = status_bytes(ok);
        // The header line parses back into the declared length, the status
        // flag, and the first chunk.
        assert(h =~= dec_rep(pl) + seq![58u8] + (sb + seq![58u8] + cs[0]));
        assert(forall|i: int| 0 <= i < dec_rep(pl).len() ==> dec_rep(pl)[i] != 58);
        lemma_find_byte_of_concat(dec_rep(pl), sb + seq![58u8] + cs[0], 58);
        let rest = sb + seq![58u8] + cs[0];
        assert(find_byte(h, 58) == dec_rep(pl).len());
        assert(h.subrange(0, dec_rep(pl).len() as int) == dec_rep(pl));
        assert(h.subrange(dec_rep(pl).len() as int + 1, h.len() as int) == rest);
        lemma_dec_rep_val(pl);
        assert(forall|i: int| 0 <= i < sb.len() ==> sb[i] != 58) by {
            if ok {
                assert(status_bytes(true) == seq![111u8, 107u8]);
            } else {
                assert(status_bytes(false) == seq![101u8, 114u8, 114u8]);
            }
        }
        lemma_find_byte_of_concat(sb, cs[0], 58);
        assert(find_byte(rest, 58) == sb.len());
        assert(rest.subrange(0, sb.len() as int) == sb);
        assert(rest.subrange(sb.len() as int + 1, rest.len() as int) == cs[0]);
        if ok {
            assert(parse_header(h) == Some((pl as nat, true, cs[0])));
        } else {
            assert(sb.len() == 3 && status_bytes(true).len() == 2);
            assert(sb != status_bytes(true));
            assert(parse_header(h) == Some((pl as nat, false, cs[0])));
        }
        // Account for the bytes the header line already carries.
        let consumed = sb.len() + 1 + cs[0].len();
        let jt = join_tail(cs.drop_first());
        assert(msg == cs[0] + jt);
        assert(pl == sb.len() + 1 + msg.len());
        if cs.len() == 1 {
            assert(jt =~= Seq::<u8>::empty());
            assert(consumed == pl);
            assert(msg =~= cs[0]);
        } else {
            assert(cs.drop_first().len() >= 1);
            assert(jt.len() >= 1);
            assert(consumed < pl);
            assert(pl - consumed == jt.len());
            assert(fs.drop_first() =~= cs.drop_first());
            assert forall|i: int| 0 <= i < cs.drop_first().len() implies !is_event_line(
                #[trigger] cs.drop_first()[i],
            ) by {
                assert(cs.drop_first()[i] == cs[i + 1]);
            }
            lemma_decode_rest_round_trip(ls.drop_first(), cs.drop_first(), ok, cs[0]);
            assert(cs[0] + jt == msg);
        }
    }
}

} // verus!
