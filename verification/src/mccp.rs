//! MCCP (MUD Client Compression Protocol): MCCP2 (option 86) compresses what
//! the server sends, MCCP3 (option 87) what the client sends. Also the
//! telnet negotiation that switches them on, and the byte framing of
//! commands. The zlib streams themselves are `flate2`'s.
use flate2::write::{ZlibDecoder, ZlibEncoder};
use std::io::Write;
use vstd::prelude::*;
use vstd::string::StringSliceAdditionalSpecFns;
use vstd::utf8::encode_utf8;
use crate::error::MushError;
use crate::text::concat_str;

verus! {

/// Telnet option of MCCP2 (server to client).
pub const TELOPT_COMPRESS2: u8 = 86;
/// Telnet option of MCCP3 (client to server).
pub const TELOPT_COMPRESS3: u8 = 87;

/// Telnet: interpret as command.
pub const IAC: u8 = 255;
/// Telnet: WILL.
pub const WILL: u8 = 251;
/// Telnet: DO.
pub const DO: u8 = 253;
/// Telnet: DONT.
pub const DONT: u8 = 254;
/// Telnet: subnegotiation begin.
pub const SB: u8 = 250;
/// Telnet: subnegotiation end.
pub const SE: u8 = 240;

/// A zlib decompressing stream: a `flate2::write::ZlibDecoder` writing into
/// a byte buffer.
#[verifier::external_body]
pub struct Inflater {
    d: ZlibDecoder<Vec<u8>>,
}

/// A zlib compressing stream: a `flate2::write::ZlibEncoder` (default
/// level) writing into a byte buffer.
#[verifier::external_body]
pub struct Deflater {
    e: ZlibEncoder<Vec<u8>>,
}

/// What zlib decompression yields from `input`, as far as `input`
/// determines it (the start of the stream's data).
pub uninterp spec fn zlib_inflated(input: Seq<u8>) -> Seq<u8>;

/// The bytes a `ZlibEncoder` at the default level writes into an empty
/// buffer when, for each chunk in turn, the chunk is written whole and the
/// encoder is then flushed.
pub uninterp spec fn zlib_deflated_flushed(chunks: Seq<Seq<u8>>) -> Seq<u8>;

/// The compressed bytes a decoder has taken in.
pub uninterp spec fn inflater_input(d: Inflater) -> Seq<u8>;

/// All the bytes a decoder has written to its buffer, including those
/// cleared since.
pub uninterp spec fn inflater_emitted(d: Inflater) -> Seq<u8>;

/// The bytes now in a decoder's buffer.
pub uninterp spec fn inflater_buffer(d: Inflater) -> Seq<u8>;

/// The chunks written to an encoder, in order.
pub uninterp spec fn deflater_chunks(e: Deflater) -> Seq<Seq<u8>>;

/// Whether an encoder's buffer holds exactly `zlib_deflated_flushed` of its
/// chunks: each chunk was written whole and followed by one flush.
pub uninterp spec fn deflater_synced(e: Deflater) -> bool;

/// Whether an encoder's last step was a whole chunk written while it was
/// synced, not yet flushed.
pub uninterp spec fn deflater_awaits_flush(e: Deflater) -> bool;

/// `ZlibDecoder::new` writing into an empty buffer: nothing taken in,
/// nothing written.
#[verifier::external_body]
fn inflater_new() -> (d: Inflater)
    ensures
        inflater_input(d) == Seq::<u8>::empty(),
        inflater_emitted(d) == Seq::<u8>::empty(),
        inflater_buffer(d) == Seq::<u8>::empty(),
{
    Inflater { d: ZlibDecoder::new(Vec::new()) }
}

/// `Write::write_all` on a decoder: on success the bytes are taken in;
/// what it writes is appended to its buffer, and all it has written is the
/// start of the decompression of all it has taken in (it may hold some
/// back for a later write). The I/O error's message on failure, with
/// nothing stated of the decoder.
#[verifier::external_body]
fn inflater_write(d: &mut Inflater, data: &[u8]) -> (r: Result<(), String>)
    ensures
        r is Ok ==> {
            &&& inflater_input(*final(d)) == inflater_input(*old(d)) + data@
            &&& inflater_buffer(*old(d)).is_prefix_of(inflater_buffer(*final(d)))
            &&& inflater_emitted(*final(d)) == inflater_emitted(*old(d)) + inflater_buffer(*final(d)).skip(
                inflater_buffer(*old(d)).len() as int,
            )
            &&& inflater_emitted(*final(d)).is_prefix_of(zlib_inflated(inflater_input(*final(d))))
        },
{
    d.d.write_all(data).map_err(|e| e.to_string())
}

/// `ZlibDecoder::get_ref`, copied: the bytes in its buffer.
#[verifier::external_body]
fn inflater_output(d: &Inflater) -> (r: Vec<u8>)
    ensures
        r@ == inflater_buffer(*d),
{
    d.d.get_ref().clone()
}

/// `ZlibDecoder::get_mut`, then clearing the buffer.
#[verifier::external_body]
fn inflater_clear(d: &mut Inflater)
    ensures
        inflater_buffer(*final(d)) == Seq::<u8>::empty(),
        inflater_input(*final(d)) == inflater_input(*old(d)),
        inflater_emitted(*final(d)) == inflater_emitted(*old(d)),
{
    d.d.get_mut().clear()
}

/// `ZlibEncoder::new` with the default level, writing into an empty buffer.
#[verifier::external_body]
fn deflater_new() -> (e: Deflater)
    ensures
        deflater_chunks(e) == Seq::<Seq<u8>>::empty(),
        deflater_synced(e),
{
    Deflater { e: ZlibEncoder::new(Vec::new(), flate2::Compression::default()) }
}

/// `Write::write_all` on an encoder: on success the chunk is taken in, not
/// yet flushed (awaiting its flush when the encoder was synced); the I/O
/// error's message on failure, with nothing stated of the encoder.
#[verifier::external_body]
fn deflater_write(e: &mut Deflater, data: &[u8]) -> (r: Result<(), String>)
    ensures
        r is Ok ==> deflater_chunks(*final(e)) == deflater_chunks(*old(e)).push(data@) && deflater_awaits_flush(
            *final(e),
        ) == deflater_synced(*old(e)),
{
    e.e.write_all(data).map_err(|err| err.to_string())
}

/// `Write::flush` on an encoder (a sync flush, which writes its marker on
/// every call): when the one chunk written since the encoder was synced
/// awaits it, on success the encoder is synced again; the I/O error's
/// message on failure. Nothing is stated of any other flush.
#[verifier::external_body]
fn deflater_flush(e: &mut Deflater) -> (r: Result<(), String>)
    ensures
        r is Ok && deflater_awaits_flush(*old(e)) ==> deflater_synced(*final(e)) && deflater_chunks(*final(e))
            == deflater_chunks(*old(e)),
{
    e.e.flush().map_err(|err| err.to_string())
}

/// `ZlibEncoder::get_ref`, copied: the compressed bytes in its buffer.
#[verifier::external_body]
fn deflater_output(e: &Deflater) -> (r: Vec<u8>)
    ensures
        deflater_synced(*e) ==> r@ == zlib_deflated_flushed(deflater_chunks(*e)),
{
    e.e.get_ref().clone()
}

/// State of one direction of compression.
#[derive(Debug, Clone, Copy, PartialEq, Eq, Structural)]
pub enum CompressionState {
    /// No compression.
    Off,
    /// Agreed, waiting to start.
    Negotiated,
    /// Compressing.
    Active,
}

/// Which directions are compressed.
#[derive(Debug, Clone, Copy, PartialEq, Eq, Structural)]
pub struct CompressionStats {
    pub mccp2_active: bool,
    pub mccp3_active: bool,
}

/// The compression state of a connection.
pub struct MccpHandler {
    rx_state: CompressionState,
    tx_state: CompressionState,
    decompressor: Option<Inflater>,
    compressor: Option<Deflater>,
    decompress_buffer: Vec<u8>,
    rx_in: Ghost<Seq<u8>>,
    rx_out: Ghost<Seq<u8>>,
    rx_all: Ghost<Seq<u8>>,
    rx_broken: Ghost<bool>,
    tx_chunks: Ghost<Seq<Seq<u8>>>,
    tx_broken: Ghost<bool>,
}

impl MccpHandler {
    /// Receive-side state (MCCP2).
    pub closed spec fn rx(self) -> CompressionState {
        self.rx_state
    }

    /// Send-side state (MCCP3).
    pub closed spec fn tx(self) -> CompressionState {
        self.tx_state
    }

    /// The compressed bytes the current MCCP2 stream has taken in.
    pub closed spec fn rx_input(self) -> Seq<u8> {
        self.rx_in@
    }

    /// What decompression of the current MCCP2 stream has given so far.
    pub closed spec fn rx_output(self) -> Seq<u8> {
        self.rx_out@
    }

    /// What decompression has given on this connection, over all streams.
    pub closed spec fn rx_log(self) -> Seq<u8> {
        self.rx_all@
    }

    /// Whether decompression of the current MCCP2 stream has failed.
    pub closed spec fn rx_failed(self) -> bool {
        self.rx_broken@
    }

    /// The chunks the current MCCP3 stream has compressed.
    pub closed spec fn tx_stream(self) -> Seq<Seq<u8>> {
        self.tx_chunks@
    }

    /// Whether compression of the current MCCP3 stream has failed.
    pub closed spec fn tx_failed(self) -> bool {
        self.tx_broken@
    }

    /// An active direction has its zlib stream, whose state (until a
    /// failure) is the one recorded: for decompression, what it took in and
    /// gave, with nothing left in its buffer; for compression, its chunks,
    /// flushed.
    pub closed spec fn wf(self) -> bool {
        &&& (self.rx_state == CompressionState::Active ==> self.decompressor is Some)
        &&& (self.tx_state == CompressionState::Active ==> self.compressor is Some)
        &&& (self.decompressor is Some && !self.rx_broken@ ==> {
            let d = self.decompressor->0;
            &&& inflater_input(d) == self.rx_in@
            &&& inflater_emitted(d) == self.rx_out@
            &&& inflater_buffer(d) == Seq::<u8>::empty()
            &&& self.rx_out@.is_prefix_of(zlib_inflated(self.rx_in@))
        })
        &&& (self.compressor is Some && !self.tx_broken@ ==> {
            let c = self.compressor->0;
            &&& deflater_chunks(c) == self.tx_chunks@
            &&& deflater_synced(c)
        })
    }

    /// No compression in either direction.
    pub fn new() -> (h: Self)
        ensures
            h.wf(),
            h.rx() == CompressionState::Off,
            h.tx() == CompressionState::Off,
    {
        MccpHandler {
            rx_state: CompressionState::Off,
            tx_state: CompressionState::Off,
            decompressor: None,
            compressor: None,
            decompress_buffer: Vec::new(),
            rx_in: Ghost(Seq::empty()),
            rx_out: Ghost(Seq::empty()),
            rx_all: Ghost(Seq::empty()),
            rx_broken: Ghost(false),
            tx_chunks: Ghost(Seq::empty()),
            tx_broken: Ghost(false),
        }
    }

    /// Receive-side state (MCCP2).
    pub fn rx_state(&self) -> (s: CompressionState)
        ensures
            s == self.rx(),
    {
        self.rx_state
    }

    /// Send-side state (MCCP3).
    pub fn tx_state(&self) -> (s: CompressionState)
        ensures
            s == self.tx(),
    {
        self.tx_state
    }

    /// The server offers MCCP2: agreed; the answer is IAC DO COMPRESS2.
    pub fn handle_mccp2_will(&mut self) -> (r: Result<Vec<u8>, MushError>)
        requires
            old(self).wf(),
        ensures
            final(self).wf(),
            final(self).rx() == CompressionState::Negotiated,
            final(self).tx() == old(self).tx(),
            final(self).rx_log() == old(self).rx_log(),
            r matches Ok(v) && v@ == seq![IAC, DO, TELOPT_COMPRESS2],
    {
        self.rx_state = CompressionState::Negotiated;
        Ok(vec![IAC, DO, TELOPT_COMPRESS2])
    }

    /// The MCCP2 subnegotiation: the server's data is compressed from now on.
    pub fn handle_mccp2_subnegotiation(&mut self) -> (r: Result<(), MushError>)
        requires
            old(self).wf(),
        ensures
            final(self).wf(),
            final(self).rx() == CompressionState::Active,
            final(self).tx() == old(self).tx(),
            final(self).rx_log() == old(self).rx_log(),
            final(self).rx_input() == Seq::<u8>::empty(),
            final(self).rx_output() == Seq::<u8>::empty(),
            !final(self).rx_failed(),
            r is Ok,
    {
        self.rx_state = CompressionState::Active;
        self.decompressor = Some(inflater_new());
        self.decompress_buffer.clear();
        self.rx_in = Ghost(Seq::empty());
        self.rx_out = Ghost(Seq::empty());
        self.rx_broken = Ghost(false);
        Ok(())
    }

    /// The server offers MCCP3: agreed; the answer is IAC DO COMPRESS3
    /// IAC SB COMPRESS3 IAC SE.
    pub fn handle_mccp3_will(&mut self) -> (r: Result<Vec<u8>, MushError>)
        requires
            old(self).wf(),
        ensures
            final(self).wf(),
            final(self).tx() == CompressionState::Negotiated,
            final(self).rx() == old(self).rx(),
            final(self).rx_log() == old(self).rx_log(),
            r matches Ok(v) && v@ == seq![IAC, DO, TELOPT_COMPRESS3, IAC, SB, TELOPT_COMPRESS3, IAC, SE],
    {
        self.tx_state = CompressionState::Negotiated;
        Ok(vec![IAC, DO, TELOPT_COMPRESS3, IAC, SB, TELOPT_COMPRESS3, IAC, SE])
    }

    /// Starts compressing what the client sends.
    pub fn start_mccp3(&mut self) -> (r: Result<(), MushError>)
        requires
            old(self).wf(),
        ensures
            final(self).wf(),
            final(self).tx() == CompressionState::Active,
            final(self).rx() == old(self).rx(),
            final(self).rx_log() == old(self).rx_log(),
            final(self).tx_stream() == Seq::<Seq<u8>>::empty(),
            !final(self).tx_failed(),
            r is Ok,
    {
        self.tx_state = CompressionState::Active;
        self.compressor = Some(deflater_new());
        self.tx_chunks = Ghost(Seq::empty());
        self.tx_broken = Ghost(false);
        Ok(())
    }

    /// Whether the server's data is compressed.
    pub fn is_receiving_compressed(&self) -> (b: bool)
        ensures
            b == (self.rx() == CompressionState::Active),
    {
        self.rx_state == CompressionState::Active
    }

    /// Whether the client's data is compressed.
    pub fn is_sending_compressed(&self) -> (b: bool)
        ensures
            b == (self.tx() == CompressionState::Active),
    {
        self.tx_state == CompressionState::Active
    }

    /// Decompresses incoming bytes while MCCP2 is active (through the zlib
    /// stream); otherwise returns them unchanged.
    pub fn decompress(&mut self, compressed_data: &[u8]) -> (r: Result<Vec<u8>, MushError>)
        requires
            old(self).wf(),
        ensures
            final(self).wf(),
            final(self).rx() == old(self).rx(),
            final(self).tx() == old(self).tx(),
            old(self).rx() != CompressionState::Active ==> (r matches Ok(v) && v@ == compressed_data@),
            r matches Err(e) ==> (e matches MushError::CompressionError(m) && exists|w: Seq<char>|
                m@ == "Decompression write failed: "@ + w),
            old(self).rx() != CompressionState::Active ==> final(self).rx_log() == old(self).rx_log(),
            old(self).rx() == CompressionState::Active && !old(self).rx_failed() ==> match r {
                Ok(v) => {
                    &&& final(self).rx_input() == old(self).rx_input() + compressed_data@
                    &&& final(self).rx_output() == old(self).rx_output() + v@
                    &&& final(self).rx_log() == old(self).rx_log() + v@
                    &&& !final(self).rx_failed()
                },
                Err(_) => final(self).rx_failed() && final(self).rx_log() == old(self).rx_log(),
            },
    {
        if self.rx_state != CompressionState::Active {
            let mut v: Vec<u8> = Vec::new();
            let mut i: usize = 0;
            while i < compressed_data.len()
                invariant
                    i <= compressed_data@.len(),
                    v@ == compressed_data@.take(i as int),
                decreases compressed_data@.len() - i,
            {
                v.push(compressed_data[i]);
                i = i + 1;
                assert(v@ =~= compressed_data@.take(i as int));
            }
            assert(compressed_data@.take(i as int) =~= compressed_data@);
            return Ok(v);
        }
        match &mut self.decompressor {
            Some(d) => {
                match inflater_write(d, compressed_data) {
                    Ok(()) => {},
                    Err(msg) => {
                        self.rx_broken = Ghost(true);
                        return Err(MushError::CompressionError(concat_str("Decompression write failed: ", msg.as_str())));
                    },
                }
                let ghost after_write = *d;
                let output = inflater_output(d);
                inflater_clear(d);
                proof {
                    if !old(self).rx_broken@ {
                        assert(inflater_buffer(after_write).skip(0) =~= inflater_buffer(after_write));
                        assert(inflater_emitted(*d) == old(self).rx_out@ + output@);
                        assert(inflater_input(*d) == old(self).rx_in@ + compressed_data@);
                    }
                }
                self.rx_in = Ghost(self.rx_in@ + compressed_data@);
                self.rx_out = Ghost(self.rx_out@ + output@);
                self.rx_all = Ghost(self.rx_all@ + output@);
                Ok(output)
            },
            None => Err(MushError::CompressionError(crate::text::to_owned_string("No decompressor initialized"))),
        }
    }

    /// Compresses outgoing bytes while MCCP3 is active (write, then flush,
    /// then the encoder's whole buffer); otherwise returns them unchanged.
    pub fn compress(&mut self, data: &[u8]) -> (r: Result<Vec<u8>, MushError>)
        requires
            old(self).wf(),
        ensures
            final(self).wf(),
            final(self).rx() == old(self).rx(),
            final(self).tx() == old(self).tx(),
            old(self).tx() != CompressionState::Active ==> (r matches Ok(v) && v@ == data@),
            r matches Err(e) ==> (e matches MushError::CompressionError(m) && exists|w: Seq<char>|
                m@ == "Compression failed: "@ + w || m@ == "Compression flush failed: "@ + w),
            final(self).rx_log() == old(self).rx_log(),
            old(self).tx() == CompressionState::Active && !old(self).tx_failed() ==> match r {
                Ok(v) => {
                    &&& final(self).tx_stream() == old(self).tx_stream().push(data@)
                    &&& v@ == zlib_deflated_flushed(final(self).tx_stream())
                    &&& !final(self).tx_failed()
                },
                Err(_) => final(self).tx_failed(),
            },
    {
        if self.tx_state != CompressionState::Active {
            let mut v: Vec<u8> = Vec::new();
            let mut i: usize = 0;
            while i < data.len()
                invariant
                    i <= data@.len(),
                    v@ == data@.take(i as int),
                decreases data@.len() - i,
            {
                v.push(data[i]);
                i = i + 1;
                assert(v@ =~= data@.take(i as int));
            }
            assert(data@.take(i as int) =~= data@);
            return Ok(v);
        }
        match &mut self.compressor {
            Some(c) => {
                match deflater_write(c, data) {
                    Ok(()) => {},
                    Err(msg) => {
                        self.tx_broken = Ghost(true);
                        return Err(MushError::CompressionError(concat_str("Compression failed: ", msg.as_str())));
                    },
                }
                match deflater_flush(c) {
                    Ok(()) => {},
                    Err(msg) => {
                        self.tx_broken = Ghost(true);
                        return Err(MushError::CompressionError(concat_str("Compression flush failed: ", msg.as_str())));
                    },
                }
                self.tx_chunks = Ghost(self.tx_chunks@.push(data@));
                Ok(deflater_output(c))
            },
            None => Err(MushError::CompressionError(crate::text::to_owned_string("No compressor initialized"))),
        }
    }

    /// Stops MCCP2; the answer is IAC DONT COMPRESS2.
    pub fn disable_mccp2(&mut self) -> (r: Result<Vec<u8>, MushError>)
        requires
            old(self).wf(),
        ensures
            final(self).wf(),
            final(self).rx() == CompressionState::Off,
            final(self).tx() == old(self).tx(),
            final(self).rx_log() == old(self).rx_log(),
            r matches Ok(v) && v@ == seq![IAC, DONT, TELOPT_COMPRESS2],
    {
        self.rx_state = CompressionState::Off;
        self.decompressor = None;
        self.decompress_buffer.clear();
        Ok(vec![IAC, DONT, TELOPT_COMPRESS2])
    }

    /// Stops MCCP3; the answer is IAC DONT COMPRESS3.
    pub fn disable_mccp3(&mut self) -> (r: Result<Vec<u8>, MushError>)
        requires
            old(self).wf(),
        ensures
            final(self).wf(),
            final(self).tx() == CompressionState::Off,
            final(self).rx() == old(self).rx(),
            final(self).rx_log() == old(self).rx_log(),
            r matches Ok(v) && v@ == seq![IAC, DONT, TELOPT_COMPRESS3],
    {
        self.tx_state = CompressionState::Off;
        self.compressor = None;
        Ok(vec![IAC, DONT, TELOPT_COMPRESS3])
    }

    /// Which directions are compressed.
    pub fn get_stats(&self) -> (s: CompressionStats)
        ensures
            s.mccp2_active == (self.rx() == CompressionState::Active),
            s.mccp3_active == (self.tx() == CompressionState::Active),
    {
        CompressionStats { mccp2_active: self.is_receiving_compressed(), mccp3_active: self.is_sending_compressed() }
    }
}

/// While MCCP2 is active and has not failed, what decompression has given
/// is the start of the decompression of what the stream has taken in.
pub proof fn law_decompressed_is_prefix(h: MccpHandler)
    requires
        h.wf(),
        h.rx() == CompressionState::Active,
        !h.rx_failed(),
    ensures
        h.rx_output().is_prefix_of(zlib_inflated(h.rx_input())),
{
}

} // verus!
