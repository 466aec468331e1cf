//! Telnet negotiation in received data: the MCCP offers and subnegotiation
//! are answered and removed from the data; everything else is left as is.
use vstd::prelude::*;
use crate::error::MushError;
use crate::mccp::{
    law_decompressed_is_prefix, zlib_deflated_flushed, zlib_inflated, CompressionState, DO, DONT, IAC, MccpHandler, SB, SE,
    TELOPT_COMPRESS2, TELOPT_COMPRESS3, WILL,
};

verus! {

/// The first position at or after `from` where IAC SE starts.
pub open spec fn find_iac_se(d: Seq<u8>, from: int) -> Option<int>
    decreases d.len() - from,
{
    if from < 0 || from + 1 >= d.len() {
        None
    } else if d[from] == IAC && d[from + 1] == SE {
        Some(from)
    } else {
        find_iac_se(d, from + 1)
    }
}

/// The answer to IAC WILL COMPRESS3.
pub open spec fn mccp3_answer() -> Seq<u8> {
    seq![IAC, DO, TELOPT_COMPRESS3, IAC, SB, TELOPT_COMPRESS3, IAC, SE]
}

/// What processing `d` from position `i` on gives: the data left, the
/// answers to send (in order), and the receive and send compression states.
/// IAC WILL COMPRESS2 is answered and removed (receive side agreed); IAC SB
/// COMPRESS2 ... IAC SE is removed and starts decompression; IAC WILL
/// COMPRESS3 is answered and removed, and starts compression.
pub open spec fn telnet_scan(d: Seq<u8>, i: int, rx: CompressionState, tx: CompressionState) -> (Seq<u8>, Seq<Seq<u8>>, CompressionState, CompressionState)
    decreases d.len() - i,
{
    if i < 0 || i >= d.len() {
        (d, Seq::empty(), rx, tx)
    } else if d[i] == IAC && i + 2 < d.len() {
        let c = d[i + 1];
        let o = d[i + 2];
        if c == WILL && o == TELOPT_COMPRESS2 {
            let r = telnet_scan(d.take(i) + d.skip(i + 3), i, CompressionState::Negotiated, tx);
            (r.0, seq![seq![IAC, DO, TELOPT_COMPRESS2]] + r.1, r.2, r.3)
        } else if c == SB && o == TELOPT_COMPRESS2 && find_iac_se(d, i + 3) is Some && find_iac_se(d, i + 3)->0 >= i + 3
            && find_iac_se(d, i + 3)->0 + 2 <= d.len() {
            let se = find_iac_se(d, i + 3)->0;
            telnet_scan(d.take(i) + d.skip(se + 2), i, CompressionState::Active, tx)
        } else if c == WILL && o == TELOPT_COMPRESS3 {
            let r = telnet_scan(d.take(i) + d.skip(i + 3), i, rx, CompressionState::Active);
            (r.0, seq![mccp3_answer()] + r.1, r.2, r.3)
        } else {
            telnet_scan(d, i + 1, rx, tx)
        }
    } else {
        telnet_scan(d, i + 1, rx, tx)
    }
}

proof fn lemma_find_iac_se(d: Seq<u8>, from: int)
    ensures
        find_iac_se(d, from) matches Some(p) ==> from <= p && p + 1 < d.len() && d[p] == IAC && d[p + 1] == SE,
    decreases d.len() - from,
{
    if !(from < 0 || from + 1 >= d.len()) && !(d[from] == IAC && d[from + 1] == SE) {
        lemma_find_iac_se(d, from + 1);
    }
}

fn cut(v: &Vec<u8>, from: usize, to: usize) -> (r: Vec<u8>)
    requires
        from <= to <= v@.len(),
    ensures
        r@ == v@.take(from as int) + v@.skip(to as int),
{
    let mut r: Vec<u8> = Vec::new();
    let mut k: usize = 0;
    while k < from
        invariant
            k <= from <= to <= v@.len(),
            r@ == v@.take(k as int),
        decreases from - k,
    {
        r.push(v[k]);
        k = k + 1;
        assert(r@ =~= v@.take(k as int));
    }
    let mut j: usize = to;
    while j < v.len()
        invariant
            from <= to <= j <= v@.len(),
            r@ == v@.take(from as int) + v@.subrange(to as int, j as int),
        decreases v@.len() - j,
    {
        r.push(v[j]);
        j = j + 1;
        assert(r@ =~= v@.take(from as int) + v@.subrange(to as int, j as int));
    }
    assert(v@.subrange(to as int, j as int) =~= v@.skip(to as int));
    r
}

/// Handles the MCCP negotiation in received data (see `telnet_scan`):
/// `data` keeps what is left, and the answers to send come back in order
/// (always `Ok`).
pub fn process_telnet(mccp: &mut MccpHandler, data: &mut Vec<u8>) -> (r: Result<Vec<Vec<u8>>, MushError>)
    requires
        old(mccp).wf(),
    ensures
        final(mccp).wf(),
        r is Ok,
        final(mccp).rx_log() == old(mccp).rx_log(),
        r matches Ok(answers) ==> {
            let t = telnet_scan(old(data)@, 0, old(mccp).rx(), old(mccp).tx());
            &&& final(data)@ == t.0
            &&& answers@.map_values(|a: Vec<u8>| a@) == t.1
            &&& final(mccp).rx() == t.2
            &&& final(mccp).tx() == t.3
        },
{
    let ghost total = telnet_scan(data@, 0, mccp.rx(), mccp.tx());
    let mut answers: Vec<Vec<u8>> = Vec::new();
    let mut i: usize = 0;
    while i < data.len()
        invariant
            mccp.wf(),
            mccp.rx_log() == old(mccp).rx_log(),
            i <= data@.len(),
            total == telnet_scan(old(data)@, 0, old(mccp).rx(), old(mccp).tx()),
            telnet_scan(data@, i as int, mccp.rx(), mccp.tx()).0 == total.0,
            answers@.map_values(|a: Vec<u8>| a@) + telnet_scan(data@, i as int, mccp.rx(), mccp.tx()).1 == total.1,
            telnet_scan(data@, i as int, mccp.rx(), mccp.tx()).2 == total.2,
            telnet_scan(data@, i as int, mccp.rx(), mccp.tx()).3 == total.3,
        decreases data@.len() - i,
    {
        let ghost cur = telnet_scan(data@, i as int, mccp.rx(), mccp.tx());
        let ghost prev_answers = answers@.map_values(|a: Vec<u8>| a@);
        if data[i] == IAC && data.len() > 2 && i < data.len() - 2 {
            let command = data[i + 1];
            let option = data[i + 2];
            if command == WILL && option == TELOPT_COMPRESS2 {
                let response = match mccp.handle_mccp2_will() {
                    Ok(v) => v,
                    Err(e) => {
                        return Err(e);
                    },
                };
                let ghost rv = response@;
                answers.push(response);
                *data = cut(data, i, i + 3);
                proof {
                    assert(answers@.map_values(|a: Vec<u8>| a@) =~= prev_answers.push(rv));
                    let next = telnet_scan(data@, i as int, mccp.rx(), mccp.tx());
                    assert(cur.1 == seq![rv] + next.1);
                    assert(prev_answers.push(rv) + next.1 =~= prev_answers + (seq![rv] + next.1));
                }
                continue;
            }
            if command == SB && option == TELOPT_COMPRESS2 {
                let mut p: usize = i + 3;
                proof {
                    lemma_find_iac_se(data@, i + 3);
                }
                while p < data.len() - 1 && !(data[p] == IAC && data[p + 1] == SE)
                    invariant
                        i + 3 <= p <= data@.len(),
                        find_iac_se(data@, i + 3) == find_iac_se(data@, p as int),
                    decreases data@.len() - p,
                {
                    p = p + 1;
                }
                if p < data.len() - 1 {
                    assert(find_iac_se(data@, p as int) == Some(p as int));
                    match mccp.handle_mccp2_subnegotiation() {
                        Ok(()) => {},
                        Err(e) => {
                            return Err(e);
                        },
                    }
                    *data = cut(data, i, p + 2);
                    continue;
                }
                assert(find_iac_se(data@, p as int) is None);
            }
            if command == WILL && option == TELOPT_COMPRESS3 {
                let response = match mccp.handle_mccp3_will() {
                    Ok(v) => v,
                    Err(e) => {
                        return Err(e);
                    },
                };
                match mccp.start_mccp3() {
                    Ok(()) => {},
                    Err(e) => {
                        return Err(e);
                    },
                }
                let ghost rv = response@;
                answers.push(response);
                *data = cut(data, i, i + 3);
                proof {
                    assert(rv == mccp3_answer());
                    assert(answers@.map_values(|a: Vec<u8>| a@) =~= prev_answers.push(rv));
                    let next = telnet_scan(data@, i as int, mccp.rx(), mccp.tx());
                    assert(cur.1 == seq![rv] + next.1);
                    assert(prev_answers.push(rv) + next.1 =~= prev_answers + (seq![rv] + next.1));
                }
                continue;
            }
        }
        i = i + 1;
    }
    proof {
        assert(answers@.map_values(|a: Vec<u8>| a@) + Seq::<Seq<u8>>::empty() =~= answers@.map_values(|a: Vec<u8>| a@));
    }
    Ok(answers)
}

/// Telnet handling after decompression, as (data, answers, receive state,
/// send state): `d` is the data it handles; `off` says that decompression
/// failed, so that MCCP2 was switched off and IAC DONT COMPRESS2 is the
/// first answer.
pub open spec fn after_decompress(d: Seq<u8>, off: bool, tx: CompressionState) -> (Seq<u8>, Seq<Seq<u8>>, CompressionState, CompressionState) {
    let rx1 = if off { CompressionState::Off } else { CompressionState::Active };
    let first = if off { seq![seq![IAC, DONT, TELOPT_COMPRESS2]] } else { Seq::<Seq<u8>>::empty() };
    let t = telnet_scan(d, 0, rx1, tx);
    (t.0, first + t.1, t.2, t.3)
}

/// The data handled after decompression gave `o`: `o` when it is not
/// empty, otherwise the chunk as received.
pub open spec fn handled_data(chunk: Seq<u8>, o: Seq<u8>) -> Seq<u8> {
    if o.len() > 0 {
        o
    } else {
        chunk
    }
}

/// What a received chunk turns into: the data, and the answers to send.
pub struct Received {
    pub data: Vec<u8>,
    pub answers: Vec<Vec<u8>>,
}

/// Handles a received chunk: while MCCP2 is active it is decompressed
/// first (when that gives bytes, they replace the chunk; when it fails,
/// MCCP2 is switched off and IAC DONT COMPRESS2 is the first answer); then
/// telnet negotiation is handled (see `process_telnet`).
pub fn process_received(mccp: &mut MccpHandler, chunk: Vec<u8>) -> (r: Result<Received, MushError>)
    requires
        old(mccp).wf(),
    ensures
        final(mccp).wf(),
        r is Ok,
        old(mccp).rx() != CompressionState::Active ==> (r matches Ok(rec) && {
            let t = telnet_scan(chunk@, 0, old(mccp).rx(), old(mccp).tx());
            &&& rec.data@ == t.0
            &&& rec.answers@.map_values(|a: Vec<u8>| a@) == t.1
            &&& final(mccp).rx() == t.2
            &&& final(mccp).tx() == t.3
        }),
        old(mccp).rx() == CompressionState::Active ==> (r matches Ok(rec) && exists|d: Seq<u8>, off: bool|
            (off ==> d == chunk@) && #[trigger] after_decompress(d, off, old(mccp).tx()) == (
                rec.data@,
                rec.answers@.map_values(|a: Vec<u8>| a@),
                final(mccp).rx(),
                final(mccp).tx(),
            )),
        old(mccp).rx() == CompressionState::Active && !old(mccp).rx_failed() ==> (r matches Ok(rec) && exists|
            o: Seq<u8>,
            off: bool,
        |
            {
                &&& (off ==> o.len() == 0 && final(mccp).rx_log() == old(mccp).rx_log())
                &&& (!off ==> final(mccp).rx_log() == old(mccp).rx_log() + o && (old(mccp).rx_output() + o).is_prefix_of(
                    zlib_inflated(old(mccp).rx_input() + chunk@),
                ))
                &&& #[trigger] after_decompress(handled_data(chunk@, o), off, old(mccp).tx()) == (
                    rec.data@,
                    rec.answers@.map_values(|a: Vec<u8>| a@),
                    final(mccp).rx(),
                    final(mccp).tx(),
                )
            }),
{
    let ghost chunk_v = chunk@;
    let mut data = chunk;
    let mut answers: Vec<Vec<u8>> = Vec::new();
    let ghost mut off = false;
    let ghost mut o: Seq<u8> = Seq::empty();
    if mccp.is_receiving_compressed() {
        match mccp.decompress(data.as_slice()) {
            Ok(decompressed) => {
                proof {
                    o = decompressed@;
                    if !old(mccp).rx_failed() {
                        law_decompressed_is_prefix(*mccp);
                    }
                }
                if decompressed.len() > 0 {
                    data = decompressed;
                }
            },
            Err(_) => {
                match mccp.disable_mccp2() {
                    Ok(response) => {
                        answers.push(response);
                        proof {
                            off = true;
                        }
                    },
                    Err(e) => {
                        return Err(e);
                    },
                }
            },
        }
    }
    let ghost d = data@;
    let ghost rx1 = mccp.rx();
    let ghost first = answers@.map_values(|a: Vec<u8>| a@);
    proof {
        if old(mccp).rx() == CompressionState::Active {
            assert(rx1 == if off { CompressionState::Off } else { CompressionState::Active });
            assert(first =~= if off { seq![seq![IAC, DONT, TELOPT_COMPRESS2]] } else { Seq::<Seq<u8>>::empty() });
            assert(off ==> d == chunk_v);
            assert(d == handled_data(chunk_v, o));
        } else {
            assert(first =~= Seq::<Seq<u8>>::empty());
        }
    }
    let more = match process_telnet(mccp, &mut data) {
        Ok(v) => v,
        Err(e) => {
            return Err(e);
        },
    };
    let mut k: usize = 0;
    let ghost before = answers@.map_values(|a: Vec<u8>| a@);
    assert(answers@.len() == 0 ==> before =~= Seq::<Seq<u8>>::empty());
    while k < more.len()
        invariant
            k <= more@.len(),
            answers@.map_values(|a: Vec<u8>| a@) == before + more@.map_values(|a: Vec<u8>| a@).take(k as int),
        decreases more@.len() - k,
    {
        let ghost b = answers@.map_values(|a: Vec<u8>| a@);
        let a = more[k].clone();
        let ghost av = a@;
        answers.push(a);
        assert(answers@.map_values(|a: Vec<u8>| a@) =~= b.push(av));
        assert(more@.map_values(|a: Vec<u8>| a@).take(k as int + 1) =~= more@.map_values(|a: Vec<u8>| a@).take(k as int).push(av));
        k = k + 1;
    }
    assert(more@.map_values(|a: Vec<u8>| a@).take(k as int) =~= more@.map_values(|a: Vec<u8>| a@));
    proof {
        if old(mccp).rx() == CompressionState::Active {
            assert(telnet_scan(d, 0, rx1, old(mccp).tx()).1 == more@.map_values(|a: Vec<u8>| a@));
            assert(after_decompress(d, off, old(mccp).tx()) == (
                data@,
                answers@.map_values(|a: Vec<u8>| a@),
                mccp.rx(),
                mccp.tx(),
            ));
            assert(after_decompress(handled_data(chunk_v, o), off, old(mccp).tx()) == (
                data@,
                answers@.map_values(|a: Vec<u8>| a@),
                mccp.rx(),
                mccp.tx(),
            ));
        }
    }
    Ok(Received { data, answers })
}

/// The bytes sent for a command: the command and a newline, compressed
/// while MCCP3 is active.
pub fn frame_command(mccp: &mut MccpHandler, command: &str) -> (r: Result<Vec<u8>, MushError>)
    requires
        old(mccp).wf(),
    ensures
        final(mccp).wf(),
        final(mccp).rx() == old(mccp).rx(),
        final(mccp).tx() == old(mccp).tx(),
        old(mccp).tx() != CompressionState::Active ==> (r matches Ok(v) && v@ == vstd::utf8::encode_utf8(command@.push('\n'))),
        r matches Err(e) ==> (e matches MushError::CompressionError(m) && exists|w: Seq<char>|
            m@ == "Compression failed: "@ + w || m@ == "Compression flush failed: "@ + w),
        final(mccp).rx_log() == old(mccp).rx_log(),
        old(mccp).tx() == CompressionState::Active && !old(mccp).tx_failed() ==> match r {
            Ok(v) => {
                &&& final(mccp).tx_stream() == old(mccp).tx_stream().push(vstd::utf8::encode_utf8(command@.push('\n')))
                &&& v@ == zlib_deflated_flushed(final(mccp).tx_stream())
            },
            Err(_) => final(mccp).tx_failed(),
        },
{
    let line = crate::text::concat_str(command, "\n");
    proof {
        reveal_strlit("\n");
        assert(line@ =~= command@.push('\n'));
    }
    let bytes = line.as_str().as_bytes();
    mccp.compress(bytes)
}

proof fn lemma_scan_without_iac(d: Seq<u8>, i: int, rx: CompressionState, tx: CompressionState)
    requires
        0 <= i,
        forall|k: int| 0 <= k < d.len() ==> d[k] != IAC,
    ensures
        telnet_scan(d, i, rx, tx) == (d, Seq::<Seq<u8>>::empty(), rx, tx),
    decreases d.len() - i,
{
    if i < d.len() {
        lemma_scan_without_iac(d, i + 1, rx, tx);
    }
}

/// Received data that holds no IAC byte passes through unchanged: nothing is
/// removed, nothing is answered, and both compression states stay as they were.
pub proof fn law_plain_data_passes_through(d: Seq<u8>, rx: CompressionState, tx: CompressionState)
    requires
        forall|k: int| 0 <= k < d.len() ==> d[k] != IAC,
    ensures
        telnet_scan(d, 0, rx, tx) == (d, Seq::<Seq<u8>>::empty(), rx, tx),
{
    lemma_scan_without_iac(d, 0, rx, tx);
}

} // verus!
