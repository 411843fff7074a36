//! The permessage-deflate extension (RFC 7692).

use crate::buffers;
use crate::error::Error;
use crate::http_text;
use crate::text;
use crate::zlib;
use crate::zlib::{Inflated, StepStatus, StreamPoint, StreamState};
use bytes::Bytes;
use flate2::{Compress, Decompress};
use vstd::prelude::*;
use vstd::slice::*;
use vstd::string::*;

verus! {

/// Default LZ77 window size (32 KiB).
pub const DEFAULT_WINDOW_BITS: u8 = 15;

/// Minimum LZ77 window size (256 bytes).
pub const MIN_WINDOW_BITS: u8 = 8;

/// Maximum LZ77 window size (32 KiB).
pub const MAX_WINDOW_BITS: u8 = 15;

/// Configuration of the permessage-deflate extension.
#[derive(Debug, Clone, Copy, PartialEq, Eq, Structural)]
pub struct DeflateConfig {
    /// The server's maximum LZ77 window bits.
    pub server_max_window_bits: u8,
    /// The client's maximum LZ77 window bits.
    pub client_max_window_bits: u8,
    /// Whether the server resets its compression context after each message.
    pub server_no_context_takeover: bool,
    /// Whether the client resets its compression context after each message.
    pub client_no_context_takeover: bool,
    /// Compression level, 0 (none) to 9 (best).
    pub compression_level: u32,
    /// Smaller messages are not compressed.
    pub compression_threshold: usize,
}

/// The default configuration.
pub open spec fn default_deflate_config() -> DeflateConfig {
    DeflateConfig {
        server_max_window_bits: DEFAULT_WINDOW_BITS,
        client_max_window_bits: DEFAULT_WINDOW_BITS,
        server_no_context_takeover: false,
        client_no_context_takeover: false,
        compression_level: 6,
        compression_threshold: 32,
    }
}

/// The settings with little memory: small windows, and no context is kept.
pub open spec fn low_memory_config() -> DeflateConfig {
    DeflateConfig {
        server_max_window_bits: 10,
        client_max_window_bits: 10,
        server_no_context_takeover: true,
        client_no_context_takeover: true,
        compression_level: 1,
        compression_threshold: 64,
    }
}

/// The settings that compress best.
pub open spec fn best_compression_config() -> DeflateConfig {
    DeflateConfig {
        server_max_window_bits: MAX_WINDOW_BITS,
        client_max_window_bits: MAX_WINDOW_BITS,
        server_no_context_takeover: false,
        client_no_context_takeover: false,
        compression_level: 9,
        compression_threshold: 16,
    }
}

/// Whether an encoder was reset: nothing is left of what it compressed, and its settings
/// are as they were.
pub open spec fn is_encoder_reset(before: DeflateEncoder, after: DeflateEncoder) -> bool {
    &&& after.state() == fresh(before.state().window_bits)
    &&& after.resets() == before.resets()
    &&& after.level() == before.level()
    &&& after.least() == before.least()
}

/// Whether a decoder was reset.
pub open spec fn is_decoder_reset(before: DeflateDecoder, after: DeflateDecoder) -> bool {
    &&& after.state() == fresh(expander_bits(before.bits()))
    &&& after.bits() == before.bits()
    &&& after.resets() == before.resets()
    &&& after.remembers()
}

/// How much room the output of a message of `len` bytes has at first.
pub open spec fn first_room(len: nat, max_size: nat) -> nat {
    let wanted = if 4 * len > 1024 {
        4 * len
    } else {
        1024
    };
    if wanted < max_size {
        wanted
    } else {
        max_size
    }
}

impl Default for DeflateConfig {
    fn default() -> (r: Self)
        ensures
            r == default_deflate_config(),
    {
        DeflateConfig {
            server_max_window_bits: DEFAULT_WINDOW_BITS,
            client_max_window_bits: DEFAULT_WINDOW_BITS,
            server_no_context_takeover: false,
            client_no_context_takeover: false,
            compression_level: 6,
            compression_threshold: 32,
        }
    }
}

/// An extension parameter: its name and, where it has one, its value.
pub type Param = (Seq<char>, Option<Seq<char>>);

/// A parameter as mathematical values.
pub open spec fn param_view(p: (&str, Option<&str>)) -> Param {
    (p.0@, http_text::opt_view(p.1))
}

/// The parameters as mathematical values.
pub open spec fn params_view(p: Seq<(&str, Option<&str>)>) -> Seq<Param> {
    p.map_values(|x: (&str, Option<&str>)| param_view(x))
}

/// A window size that may be negotiated.
pub open spec fn is_window_bits(bits: u8) -> bool {
    MIN_WINDOW_BITS <= bits <= MAX_WINDOW_BITS
}

/// What is wrong with one parameter, if anything.
pub open spec fn param_error(p: Param) -> Option<Error> {
    if p.0 == "server_no_context_takeover"@ {
        if p.1 is Some {
            Some(Error::HandshakeFailed("server_no_context_takeover must not have a value"))
        } else {
            None
        }
    } else if p.0 == "client_no_context_takeover"@ {
        if p.1 is Some {
            Some(Error::HandshakeFailed("client_no_context_takeover must not have a value"))
        } else {
            None
        }
    } else if p.0 == "server_max_window_bits"@ {
        match p.1 {
            Some(v) => match text::u8_from_text(v) {
                Some(bits) => if is_window_bits(bits) {
                    None
                } else {
                    Some(Error::HandshakeFailed("server_max_window_bits out of range (8-15)"))
                },
                None => Some(Error::HandshakeFailed("invalid server_max_window_bits value")),
            },
            None => None,
        }
    } else if p.0 == "client_max_window_bits"@ {
        match p.1 {
            Some(v) => match text::u8_from_text(v) {
                Some(bits) => if is_window_bits(bits) {
                    None
                } else {
                    Some(Error::HandshakeFailed("client_max_window_bits out of range (8-15)"))
                },
                None => Some(Error::HandshakeFailed("invalid client_max_window_bits value")),
            },
            None => None,
        }
    } else {
        Some(Error::HandshakeFailed("unknown permessage-deflate parameter"))
    }
}

/// What is wrong with the first faulty parameter, if there is one.
pub open spec fn params_error(params: Seq<Param>) -> Option<Error>
    decreases params.len(),
{
    if params.len() == 0 {
        None
    } else {
        match params_error(params.drop_last()) {
            Some(e) => Some(e),
            None => param_error(params.last()),
        }
    }
}

/// Whether a parameter of the given name is among the parameters.
pub open spec fn has_param(params: Seq<Param>, name: Seq<char>) -> bool {
    exists|i: int| 0 <= i < params.len() && (#[trigger] params[i]).0 == name
}

/// The window bits that the last parameter of the given name with a value asks
/// for, or the default.
pub open spec fn window_param(params: Seq<Param>, name: Seq<char>) -> u8
    decreases params.len(),
{
    if params.len() == 0 {
        DEFAULT_WINDOW_BITS
    } else if params.last().0 == name && params.last().1 is Some {
        text::u8_from_text(params.last().1->0)->0
    } else {
        window_param(params.drop_last(), name)
    }
}

/// The configuration that faultless parameters describe.
///
/// A client that does not keep its context makes the server drop its own too.
pub open spec fn config_of(params: Seq<Param>) -> DeflateConfig {
    DeflateConfig {
        server_max_window_bits: window_param(params, "server_max_window_bits"@),
        client_max_window_bits: window_param(params, "client_max_window_bits"@),
        server_no_context_takeover: has_param(params, "server_no_context_takeover"@) || has_param(
            params,
            "client_no_context_takeover"@,
        ),
        client_no_context_takeover: has_param(params, "client_no_context_takeover"@),
        compression_level: 6,
        compression_threshold: 32,
    }
}

/// One more parameter of another name is not one of the given name.
pub proof fn lemma_has_param_push(params: Seq<Param>, p: Param, name: Seq<char>)
    ensures
        has_param(params.push(p), name) == (has_param(params, name) || p.0 == name),
{
    if has_param(params, name) {
        let i = choose|i: int| 0 <= i < params.len() && (#[trigger] params[i]).0 == name;
        assert(params.push(p)[i].0 == name);
    }
    if p.0 == name {
        assert(params.push(p)[params.len() as int].0 == name);
    }
    if has_param(params.push(p), name) {
        let i = choose|i: int| 0 <= i < params.push(p).len() && (#[trigger] params.push(p)[i]).0 == name;
        if i < params.len() {
            assert(params[i].0 == name);
        }
    }
}

/// The names of the parameters differ.
pub proof fn lemma_param_names()
    ensures
        "server_no_context_takeover"@ != "client_no_context_takeover"@,
        "server_no_context_takeover"@ != "server_max_window_bits"@,
        "server_no_context_takeover"@ != "client_max_window_bits"@,
        "client_no_context_takeover"@ != "server_max_window_bits"@,
        "client_no_context_takeover"@ != "client_max_window_bits"@,
        "server_max_window_bits"@ != "client_max_window_bits"@,
{
    reveal_strlit("server_no_context_takeover");
    reveal_strlit("client_no_context_takeover");
    reveal_strlit("server_max_window_bits");
    reveal_strlit("client_max_window_bits");
    assert("server_no_context_takeover"@[0] != "client_no_context_takeover"@[0]);
    assert("server_max_window_bits"@[0] != "client_max_window_bits"@[0]);
    assert("server_no_context_takeover"@.len() == 26);
    assert("client_no_context_takeover"@.len() == 26);
    assert("server_max_window_bits"@.len() == 22);
    assert("client_max_window_bits"@.len() == 22);
}

/// A fault in the first parameters is the fault of all.
proof fn lemma_params_error_prefix(params: Seq<Param>, k: int)
    requires
        0 <= k <= params.len(),
        params_error(params.take(k)) is Some,
    ensures
        params_error(params) == params_error(params.take(k)),
    decreases params.len() - k,
{
    if k < params.len() {
        assert(params.drop_last().take(k) =~= params.take(k));
        lemma_params_error_prefix(params.drop_last(), k);
    } else {
        assert(params.take(k) =~= params);
    }
}

/// The window bits that a parameter's value asks for.
fn window_bits_value(
    value: &str,
    invalid: &'static str,
    out_of_range: &'static str,
) -> (r: Result<u8, Error>)
    ensures
        r == (match text::u8_from_text(value@) {
            Some(bits) => if is_window_bits(bits) {
                Ok(bits)
            } else {
                Err(Error::HandshakeFailed(out_of_range))
            },
            None => Err(Error::HandshakeFailed(invalid)),
        }),
{
    match text::parse_u8(value) {
        Some(bits) => {
            if MIN_WINDOW_BITS <= bits && bits <= MAX_WINDOW_BITS {
                Ok(bits)
            } else {
                Err(Error::HandshakeFailed(out_of_range))
            }
        },
        None => Err(Error::HandshakeFailed(invalid)),
    }
}

impl DeflateConfig {
    /// A configuration for low memory usage.
    pub fn low_memory() -> (r: Self)
        ensures
            r == (DeflateConfig {
                server_max_window_bits: 10,
                client_max_window_bits: 10,
                server_no_context_takeover: true,
                client_no_context_takeover: true,
                compression_level: 1,
                compression_threshold: 64,
            }),
            r == low_memory_config(),
    {
        DeflateConfig {
            server_max_window_bits: 10,
            client_max_window_bits: 10,
            server_no_context_takeover: true,
            client_no_context_takeover: true,
            compression_level: 1,
            compression_threshold: 64,
        }
    }

    /// A configuration for the best compression.
    pub fn best_compression() -> (r: Self)
        ensures
            r == (DeflateConfig {
                server_max_window_bits: MAX_WINDOW_BITS,
                client_max_window_bits: MAX_WINDOW_BITS,
                server_no_context_takeover: false,
                client_no_context_takeover: false,
                compression_level: 9,
                compression_threshold: 16,
            }),
            r == best_compression_config(),
    {
        DeflateConfig {
            server_max_window_bits: MAX_WINDOW_BITS,
            client_max_window_bits: MAX_WINDOW_BITS,
            server_no_context_takeover: false,
            client_no_context_takeover: false,
            compression_level: 9,
            compression_threshold: 16,
        }
    }

    /// Reads the parameters of an extension offer.
    pub fn from_params(params: &[(&str, Option<&str>)]) -> (r: Result<Self, Error>)
        ensures
            r == (match params_error(params_view(params@)) {
                Some(e) => Err(e),
                None => Ok(config_of(params_view(params@))),
            }),
    {
        let mut config = DeflateConfig::default();
        let ghost all = params_view(params@);
        let mut i: usize = 0;
        proof {
            lemma_param_names();
            assert(all.take(0) =~= seq![]);
        }
        while i < params.len()
            invariant
                all == params_view(params@),
                all.len() == params.len(),
                i <= params.len(),
                params_error(all.take(i as int)) is None,
                config == config_of(all.take(i as int)),
            decreases params.len() - i,
        {
            let name = params[i].0;
            let value = params[i].1;
            let ghost p = all[i as int];
            proof {
                lemma_param_names();
                let before = all.take(i as int);
                assert(all.take(i + 1) =~= before.push(p));
                assert(all.take(i + 1).drop_last() =~= before);
                assert(p == param_view(params@[i as int]));
                lemma_has_param_push(before, p, "server_no_context_takeover"@);
                lemma_has_param_push(before, p, "client_no_context_takeover"@);
                if param_error(p) is Some {
                    lemma_params_error_prefix(all, i + 1);
                }
            }
            if text::str_eq(name, "server_no_context_takeover") {
                if value.is_some() {
                    return Err(
                        Error::HandshakeFailed("server_no_context_takeover must not have a value"),
                    );
                }
                config.server_no_context_takeover = true;
            } else if text::str_eq(name, "client_no_context_takeover") {
                if value.is_some() {
                    return Err(
                        Error::HandshakeFailed("client_no_context_takeover must not have a value"),
                    );
                }
                config.client_no_context_takeover = true;
                config.server_no_context_takeover = true;
            } else if text::str_eq(name, "server_max_window_bits") {
                if let Some(v) = value {
                    match window_bits_value(
                        v,
                        "invalid server_max_window_bits value",
                        "server_max_window_bits out of range (8-15)",
                    ) {
                        Ok(bits) => {
                            config.server_max_window_bits = bits;
                        },
                        Err(e) => {
                            return Err(e);
                        },
                    }
                }
            } else if text::str_eq(name, "client_max_window_bits") {
                if let Some(v) = value {
                    match window_bits_value(
                        v,
                        "invalid client_max_window_bits value",
                        "client_max_window_bits out of range (8-15)",
                    ) {
                        Ok(bits) => {
                            config.client_max_window_bits = bits;
                        },
                        Err(e) => {
                            return Err(e);
                        },
                    }
                }
            } else {
                return Err(Error::HandshakeFailed("unknown permessage-deflate parameter"));
            }
            i = i + 1;
        }
        assert(all.take(i as int) =~= all);
        Ok(config)
    }

    /// The extension response of a server with this configuration.
    pub fn to_response_header(&self) -> (r: String)
        ensures
            r@ == response_header(*self),
    {
        let mut out = "permessage-deflate".to_owned();
        if self.server_no_context_takeover {
            out.append("; server_no_context_takeover");
        }
        if self.client_no_context_takeover {
            out.append("; client_no_context_takeover");
        }
        if self.server_max_window_bits < MAX_WINDOW_BITS {
            out.append("; server_max_window_bits=");
            out.append(text::u64_to_decimal(self.server_max_window_bits as u64).as_str());
        }
        if self.client_max_window_bits < MAX_WINDOW_BITS {
            out.append("; client_max_window_bits=");
            out.append(text::u64_to_decimal(self.client_max_window_bits as u64).as_str());
        }
        assert(out@ =~= response_header(*self));
        out
    }
}

/// `s` where the condition holds, and nothing otherwise.
pub open spec fn only_if(condition: bool, s: Seq<char>) -> Seq<char> {
    if condition {
        s
    } else {
        seq![]
    }
}

/// The extension response of a server with the given configuration: the name,
/// then what differs from the defaults.
pub open spec fn response_header(config: DeflateConfig) -> Seq<char> {
    "permessage-deflate"@ + only_if(
        config.server_no_context_takeover,
        "; server_no_context_takeover"@,
    ) + only_if(config.client_no_context_takeover, "; client_no_context_takeover"@) + only_if(
        config.server_max_window_bits < MAX_WINDOW_BITS,
        "; server_max_window_bits="@ + text::decimal(config.server_max_window_bits as nat),
    ) + only_if(
        config.client_max_window_bits < MAX_WINDOW_BITS,
        "; client_max_window_bits="@ + text::decimal(config.client_max_window_bits as nat),
    )
}

/// `s` without the double quotes at its ends.
pub open spec fn trim_quotes(s: Seq<char>) -> Seq<char>
    decreases s.len(),
{
    if s.len() > 0 && s[0] == '"' {
        trim_quotes(s.skip(1))
    } else if s.len() > 0 && s.last() == '"' {
        trim_quotes(s.drop_last())
    } else {
        s
    }
}

/// The parameter that a trimmed, non-empty piece of an offer stands for.
pub open spec fn param_of(piece: Seq<char>) -> Param {
    match text::split_once(piece, '=') {
        Some((name, value)) => (text::trim(name), Some(trim_quotes(text::trim(value)))),
        None => (piece, None),
    }
}

/// The parameters that the pieces of an offer stand for; empty pieces are
/// skipped.
pub open spec fn params_of(pieces: Seq<Seq<char>>) -> Seq<Param>
    decreases pieces.len(),
{
    if pieces.len() == 0 {
        seq![]
    } else {
        let before = params_of(pieces.drop_last());
        let piece = text::trim(pieces.last());
        if piece.len() == 0 {
            before
        } else {
            before.push(param_of(piece))
        }
    }
}

/// The parameters of a permessage-deflate offer, where the value is one.
pub open spec fn offer_of(value: Seq<char>) -> Option<Seq<Param>> {
    let v = text::trim(value);
    let rest = text::trim_start(v.skip("permessage-deflate"@.len() as int));
    if !"permessage-deflate"@.is_prefix_of(v) {
        None
    } else if rest.len() == 0 {
        Some(seq![])
    } else if rest[0] != ';' {
        None
    } else {
        Some(params_of(text::split(rest.skip(1), ';')))
    }
}

/// What `trim_quotes` leaves when `a` quotes stand before and the rest behind `b`.
proof fn lemma_trim_quotes(s: Seq<char>, a: int, b: int)
    requires
        0 <= a <= b <= s.len(),
        forall|j: int| 0 <= j < a ==> #[trigger] s[j] == '"',
        forall|j: int| b <= j < s.len() ==> #[trigger] s[j] == '"',
        a < s.len() ==> s[a] != '"' || a == b,
        a < b ==> s[b - 1] != '"',
        a == b ==> b == s.len(),
    ensures
        trim_quotes(s) == s.subrange(a, b),
    decreases s.len(),
{
    if a > 0 {
        assert(s[0] == '"');
        let t = s.skip(1);
        assert forall|j: int| 0 <= j < a - 1 implies #[trigger] t[j] == '"' by {
            assert(t[j] == s[j + 1]);
        }
        assert forall|j: int| b - 1 <= j < t.len() implies #[trigger] t[j] == '"' by {
            assert(t[j] == s[j + 1]);
        }
        lemma_trim_quotes(t, a - 1, b - 1);
        assert(t.subrange(a - 1, b - 1) =~= s.subrange(a, b));
    } else if b < s.len() {
        assert(s[s.len() - 1] == '"');
        let t = s.drop_last();
        lemma_trim_quotes(t, a, b);
        assert(t.subrange(a, b) =~= s.subrange(a, b));
    } else {
        assert(s.subrange(a, b) =~= s);
    }
}

/// Removes the double quotes at both ends.
fn str_trim_quotes<'a>(s: &'a str) -> (r: &'a str)
    ensures
        r@ == trim_quotes(s@),
{
    let chars = text::to_chars(s);
    let n: usize = chars.len();
    let mut a: usize = 0;
    while a < n && chars[a] == '"'
        invariant
            chars@ == s@,
            n == chars.len(),
            a <= n,
            forall|j: int| 0 <= j < a ==> #[trigger] s@[j] == '"',
        decreases n - a,
    {
        a = a + 1;
    }
    let mut b: usize = n;
    while b > a && chars[b - 1] == '"'
        invariant
            chars@ == s@,
            n == chars.len(),
            a <= b <= n,
            a < n ==> s@[a as int] != '"',
            forall|j: int| b <= j < n ==> #[trigger] s@[j] == '"',
        decreases b,
    {
        b = b - 1;
    }
    proof {
        lemma_trim_quotes(s@, a as int, b as int);
    }
    s.substring_char(a, b)
}

/// An optional list of parameters as mathematical values.
pub open spec fn opt_params_view(p: Option<Vec<(&str, Option<&str>)>>) -> Option<Seq<Param>> {
    match p {
        Some(v) => Some(params_view(v@)),
        None => None,
    }
}

/// Reads a permessage-deflate offer.
pub fn parse_deflate_offer<'a>(value: &'a str) -> (r: Option<Vec<(&'a str, Option<&'a str>)>>)
    ensures
        opt_params_view(r) == offer_of(value@),
{
    let v = text::str_trim(value);
    if !text::str_starts_with(v, "permessage-deflate") {
        return None;
    }
    proof {
        reveal_strlit("permessage-deflate");
    }
    let rest = text::str_trim_start(text::str_skip(v, 18));
    let mut params: Vec<(&'a str, Option<&'a str>)> = Vec::new();
    assert(params_view(params@) =~= seq![]);
    if rest.is_empty() {
        return Some(params);
    }
    if rest.get_char(0) != ';' {
        return None;
    }
    let pieces = text::str_split(text::str_skip(rest, 1), ';');
    let ghost all = text::views(pieces@);
    let mut i: usize = 0;
    assert(all.take(0) =~= seq![]);
    while i < pieces.len()
        invariant
            all == text::views(pieces@),
            all.len() == pieces.len(),
            i <= pieces.len(),
            params_view(params@) == params_of(all.take(i as int)),
        decreases pieces.len() - i,
    {
        let ghost before = params@;
        proof {
            assert(all.take(i + 1).drop_last() =~= all.take(i as int));
            assert(all[i as int] == pieces@[i as int]@);
        }
        let piece = text::str_trim(pieces[i]);
        if !piece.is_empty() {
            let param = match text::str_split_once(piece, '=') {
                Some((name, value)) => (
                    text::str_trim(name),
                    Some(str_trim_quotes(text::str_trim(value))),
                ),
                None => (piece, None),
            };
            params.push(param);
            assert(params_view(params@) =~= params_view(before).push(param_view(param)));
        }
        i = i + 1;
    }
    assert(all.take(i as int) =~= all);
    Some(params)
}

/// The most bytes that an expander is handed, or asked for, in one step.
pub const MAX_STEP: usize = 0x7fff_ffff;

/// The most bytes that a compressor is handed, or asked for, in one step.
pub const STEP_LIMIT: usize = 0xffff_ffff;

/// After so many steps without an end, compression is given up.
pub const MAX_ITERATIONS: u32 = 100_000;

/// How much a decoder remembers of what it gave out.
pub const HISTORY_SIZE: usize = 32768;

/// What is sent of a flushed stream: the flush trailer at the end is left out.
pub open spec fn without_trailer(out: Seq<u8>) -> Seq<u8> {
    if out.len() >= 4 && out.skip(out.len() - 4) == zlib::flush_trailer() {
        out.take(out.len() - 4)
    } else {
        out
    }
}

/// What is sent of a message of `len` bytes that was compressed to `out`: nothing
/// where it did not shrink, since it is then sent as it is.
pub open spec fn compressed_message(out: Seq<u8>, len: nat) -> Option<Seq<u8>> {
    let payload = without_trailer(out);
    if payload.len() >= len {
        None
    } else {
        Some(payload)
    }
}

/// Decides what is sent of a message of `len` bytes that was compressed to `out`.
pub fn finish_message(out: Vec<u8>, len: usize) -> (r: Option<Vec<u8>>)
    ensures
        match (r, compressed_message(out@, len as nat)) {
            (Some(v), Some(p)) => v@ == p,
            (None, None) => true,
            _ => false,
        },
{
    let mut payload = out;
    let n: usize = payload.len();
    if n >= 4 {
        proof {
            let tail = payload@.skip(n - 4);
            assert(tail.len() == 4);
            if tail == zlib::flush_trailer() {
                assert(tail[0] == 0 && tail[1] == 0 && tail[2] == 0xff && tail[3] == 0xff);
            }
            if payload@[n - 4] == 0 && payload@[n - 3] == 0 && payload@[n - 2] == 0xff
                && payload@[n - 1] == 0xff {
                assert(tail =~= zlib::flush_trailer());
            }
        }
        if payload[n - 4] == 0x00 && payload[n - 3] == 0x00 && payload[n - 2] == 0xff
            && payload[n - 1] == 0xff {
            payload.truncate(n - 4);
            assert(payload@ =~= out@.take(n - 4));
        }
    }
    if payload.len() >= len {
        None
    } else {
        Some(payload)
    }
}

/// How much room is made for compressed output when it runs out.
pub const MORE_ROOM: usize = 4096;

/// Compresses outgoing messages.
pub struct DeflateEncoder {
    compress: Compress,
    no_context_takeover: bool,
    window_bits: u8,
    compression_level: u32,
    threshold: usize,
}

impl DeflateEncoder {
    /// The state of the compressor.
    pub closed spec fn state(&self) -> StreamState {
        zlib::deflater(self.compress)
    }

    /// Whether the context is reset before each message.
    pub closed spec fn resets(&self) -> bool {
        self.no_context_takeover
    }

    /// The level at which messages are compressed.
    pub closed spec fn level(&self) -> u32 {
        zlib::deflater_level(self.compress)
    }

    /// Messages with fewer bytes are not compressed.
    pub closed spec fn least(&self) -> usize {
        self.threshold
    }

    /// The state that compressing a message starts from.
    pub open spec fn start(&self) -> StreamState {
        if self.resets() {
            fresh(self.state().window_bits)
        } else {
            self.state()
        }
    }

    /// Creates an encoder.
    pub fn new(window_bits: u8, no_context_takeover: bool, level: u32, threshold: usize) -> (r:
        Self)
        requires
            9 <= window_bits <= 15,
            level <= 9,
        ensures
            r.state() == fresh(window_bits),
            r.resets() == no_context_takeover,
            r.level() == level,
            r.least() == threshold,
    {
        DeflateEncoder {
            compress: zlib::new_compressor(level, window_bits),
            no_context_takeover,
            window_bits,
            compression_level: level,
            threshold,
        }
    }

    /// Drops the compression context.
    pub fn reset(&mut self)
        ensures
            final(self).state() == fresh(old(self).state().window_bits),
            final(self).resets() == old(self).resets(),
            final(self).level() == old(self).level(),
            final(self).least() == old(self).least(),
            is_encoder_reset(*old(self), *final(self)),
    {
        zlib::reset_compressor(&mut self.compress);
    }

    /// Compresses a message.
    ///
    /// Gives `None` where the message is below the threshold, and where it does
    /// not shrink. In the second case it is sent as it is and never enters the
    /// peer's window, so the compressor forgets it, and all that came before.
    pub fn compress(&mut self, data: &[u8]) -> (r: Result<Option<Bytes>, Error>)
        requires
            data@.len() + 64 <= isize::MAX,
        ensures
            compress_outcome(*old(self), data@, r, *final(self)),
    {
        if data.len() < self.threshold {
            return Ok(None);
        }
        if self.no_context_takeover {
            zlib::reset_compressor(&mut self.compress);
        }
        let ghost start = zlib::deflater(self.compress);
        let mut output: Vec<u8> = Vec::new();
        let mut room: usize = data.len() + 64;
        let mut total_in: usize = 0;
        let mut iterations: u32 = 0;
        let mut done: bool = false;
        let ghost mut whole_parts: int = 0;
        assert(stepped(start, data@.take(0), output@) =~= start);
        while !done
            invariant
                data@.len() >= old(self).threshold,
                data@.len() + 64 <= isize::MAX,
                self.no_context_takeover == old(self).no_context_takeover,
                self.threshold == old(self).threshold,
                zlib::deflater_level(self.compress) == old(self).level(),
                start == old(self).start(),
                room <= isize::MAX,
                iterations <= MAX_ITERATIONS,
                total_in <= data.len(),
                iterations == 0 ==> room == data.len() + 64 && total_in == 0 && output@.len() == 0
                    && !done,
                iterations > 0 && data.len() > 0 ==> output@.len() >= 4,
                data.len() + 64 <= STEP_LIMIT && !done && iterations > 0 ==> room == 0
                    && output@.len() == data.len() + 64 + (iterations - 1) * MORE_ROOM,
                0 <= whole_parts,
                whole_parts * STEP_LIMIT <= total_in,
                !done ==> output@.len() + MORE_ROOM * (2 * whole_parts + 1 - iterations) >= (if 0
                    < room < MORE_ROOM {
                    MORE_ROOM - room
                } else {
                    0
                }),
                zlib::deflater(self.compress) == stepped(
                    start,
                    data@.take(total_in as int),
                    output@,
                ),
                done ==> total_in == data.len() && zlib::is_flushed(zlib::deflater(self.compress)),
            decreases MAX_ITERATIONS - iterations,
        {
            if iterations >= MAX_ITERATIONS {
                assert(self.state().output.skip(start.output.len() as int) =~= output@);
                return Err(
                    Error::Compression("compression took too many iterations".to_owned()),
                );
            }
            iterations = iterations + 1;
            if room == 0 {
                room = MORE_ROOM;
            }
            let ghost given_before = output@;
            let before_in: u64 = zlib::compressor_total_in(&self.compress);
            let before_out: u64 = zlib::compressor_total_out(&self.compress);
            let end: usize = if data.len() - total_in > STEP_LIMIT {
                total_in + STEP_LIMIT
            } else {
                data.len()
            };
            let input = slice_subrange(data, total_in, end);
            let asked: usize = if room > STEP_LIMIT {
                STEP_LIMIT
            } else {
                room
            };
            let step = zlib::compress_step(&mut self.compress, input, asked);
            match step.0 {
                Ok(_) => {},
                Err(message) => {
                    let mut text = "deflate error: ".to_owned();
                    text.append(message.as_str());
                    return Err(Error::Compression(text));
                },
            }
            let mut chunk = step.1;
            let ghost buffer = chunk@;
            let consumed: usize = (zlib::compressor_total_in(&self.compress) - before_in) as usize;
            let produced: usize = (zlib::compressor_total_out(&self.compress) - before_out) as usize;
            chunk.truncate(produced);
            output.append(&mut chunk);
            room = room - produced;
            proof {
                let given = buffer.take(produced as int);
                assert(output@ =~= given_before + given);
                assert(input@.take(consumed as int) =~= data@.subrange(
                    total_in as int,
                    total_in + consumed,
                ));
                lemma_step_compose(
                    start,
                    data@,
                    total_in as int,
                    consumed as int,
                    given_before,
                    given,
                );
            }
            total_in = total_in + consumed;
            if total_in == data.len() && produced < asked {
                done = true;
            }
            proof {
                if !done && produced < asked {
                    whole_parts = whole_parts + 1;
                }
            }
        }
        let len: usize = data.len();
        proof {
            let end = self.state();
            assert(data@.take(len as int) =~= data@);
            assert(end.output.skip(start.output.len() as int) =~= output@);
            if len > 0 {
                assert(output@.skip(output@.len() - 4) =~= end.output.skip(end.output.len() - 4));
            }
            assert(is_compression(start, data@, output@));
        }
        match finish_message(output, len) {
            Some(payload) => {
                assert(payload@ + zlib::flush_trailer() =~= output@) by {
                    let n = output@.len();
                    assert(output@.take(n - 4) + output@.skip(n - 4) =~= output@);
                }
                Ok(Some(buffers::bytes_from_vec(payload)))
            },
            None => {
                zlib::reset_compressor(&mut self.compress);
                Ok(None)
            },
        }
    }
}

/// Whether `out` is what a compressor gives out for `data`, flushed, from `start`
/// on.
pub open spec fn is_compression(start: StreamState, data: Seq<u8>, out: Seq<u8>) -> bool {
    &&& zlib::is_flushed(stepped(start, data, out))
    &&& data.len() > 0 ==> out.len() >= 4 && out.skip(out.len() - 4) == zlib::flush_trailer()
}

/// The contents of an optional buffer.
pub open spec fn opt_contents(b: Option<Bytes>) -> Option<Seq<u8>> {
    match b {
        Some(x) => Some(buffers::contents(x)),
        None => None,
    }
}

/// How `compress` takes an encoder from `before` to `after`.
///
/// A message below the threshold changes nothing. Any other is taken in whole,
/// from a fresh start where the context is reset, and flushed. Where it shrank,
/// it is sent without the flush trailer; where it did not, the compressor is as
/// one that has just been started. The level stays as it was. Compression is given
/// up only for a message that it makes some 400 MB longer, or, where the message
/// has many times the size of one step, for which as much is given out but for two
/// rounds of each such step.
pub open spec fn compress_outcome(
    before: DeflateEncoder,
    data: Seq<u8>,
    r: Result<Option<Bytes>, Error>,
    after: DeflateEncoder,
) -> bool {
    let start = before.start();
    &&& after.resets() == before.resets()
    &&& after.level() == before.level()
    &&& after.least() == before.least()
    &&& if data.len() < before.least() {
        r == Ok::<Option<Bytes>, Error>(None) && after.state() == before.state()
    } else {
        match r {
            Ok(Some(payload)) => {
                let out = buffers::contents(payload) + zlib::flush_trailer();
                &&& buffers::contents(payload).len() < data.len()
                &&& is_compression(start, data, out)
                &&& after.state() == stepped(start, data, out)
            },
            Ok(None) => {
                &&& exists|out: Seq<u8>| #[trigger]
                    is_compression(start, data, out) && compressed_message(out, data.len()) is None
                &&& after.state() == fresh(start.window_bits)
            },
            Err(e) => {
                &&& e is Compression
                &&& !start.finished ==> {
                    let given = after.state().output.len() - start.output.len();
                    &&& e->Compression_0@ == "compression took too many iterations"@
                    &&& given >= MORE_ROOM * (MAX_ITERATIONS - 1 - 2 * (data.len() as int
                        / STEP_LIMIT as int))
                    &&& data.len() + 64 <= STEP_LIMIT ==> given == data.len() + 64 + (
                    MAX_ITERATIONS - 1) * MORE_ROOM
                }
            },
        }
    }
}

/// The state of a codec that has just been started.
pub open spec fn fresh(window_bits: u8) -> StreamState {
    StreamState {
        window_bits,
        history: Seq::empty(),
        input: Seq::empty(),
        output: Seq::empty(),
        finished: false,
    }
}

/// The last `HISTORY_SIZE` bytes of `s`, or all where there are fewer.
pub open spec fn tail(s: Seq<u8>) -> Seq<u8> {
    if s.len() > HISTORY_SIZE {
        s.skip(s.len() - HISTORY_SIZE)
    } else {
        s
    }
}

/// Only the tail of what came before matters for the tail of a longer sequence.
proof fn lemma_tail(a: Seq<u8>, b: Seq<u8>)
    ensures
        tail(tail(a) + b) == tail(a + b),
{
    assert(tail(tail(a) + b) =~= tail(a + b));
}

/// The tail of `old` followed by `new`.
fn remember(old_tail: &Vec<u8>, new: &Vec<u8>) -> (r: Vec<u8>)
    ensures
        r@ == tail(old_tail@ + new@),
{
    let mut out: Vec<u8> = Vec::new();
    let n: usize = new.len();
    if n >= HISTORY_SIZE {
        let part = slice_subrange(new.as_slice(), n - HISTORY_SIZE, n);
        let r = slice_to_vec(part);
        assert(r@ =~= tail(old_tail@ + new@));
        return r;
    }
    let keep: usize = HISTORY_SIZE - n;
    let m: usize = old_tail.len();
    let from: usize = if m > keep {
        m - keep
    } else {
        0
    };
    let mut r = slice_to_vec(slice_subrange(old_tail.as_slice(), from, m));
    let mut rest = slice_to_vec(new.as_slice());
    r.append(&mut rest);
    assert(r@ =~= tail(old_tail@ + new@));
    r
}

/// Expands incoming messages.
pub struct DeflateDecoder {
    inflate: Decompress,
    window_bits: u8,
    no_context_takeover: bool,
    /// The last bytes given out, for a stream that follows one that ended.
    window: Vec<u8>,
}

/// The window that an expander is given: the least it supports is 9 bits. How far
/// back it reads does not depend on it.
pub open spec fn expander_bits(window_bits: u8) -> u8 {
    if window_bits < 9 {
        9
    } else {
        window_bits
    }
}

impl DeflateDecoder {
    /// The state of the expander.
    pub closed spec fn state(&self) -> StreamState {
        zlib::inflater(self.inflate)
    }

    /// Whether the context is reset before each message.
    pub closed spec fn resets(&self) -> bool {
        self.no_context_takeover
    }

    /// The window bits that were negotiated.
    pub closed spec fn bits(&self) -> u8 {
        self.window_bits
    }

    /// What a new stream may refer back to.
    pub closed spec fn kept(&self) -> Seq<u8> {
        self.window@
    }

    /// The window bits are in range.
    pub open spec fn wf(&self) -> bool {
        8 <= self.bits() <= 15
    }

    /// The decoder remembers the tail of what the expander may refer to.
    pub open spec fn remembers(&self) -> bool {
        self.kept() == tail(self.state().history + self.state().output)
    }

    /// The state that expanding a message starts from.
    pub open spec fn start(&self) -> StreamState {
        if self.resets() {
            fresh(expander_bits(self.bits()))
        } else {
            self.state()
        }
    }

    /// Creates a decoder.
    pub fn new(window_bits: u8, no_context_takeover: bool) -> (r: Self)
        requires
            8 <= window_bits <= 15,
        ensures
            r.wf(),
            r.bits() == window_bits,
            r.resets() == no_context_takeover,
            r.state() == fresh(expander_bits(window_bits)),
            r.remembers(),
    {
        let bits: u8 = if window_bits < 9 {
            9
        } else {
            window_bits
        };
        let d = DeflateDecoder {
            inflate: zlib::new_expander(bits),
            window_bits,
            no_context_takeover,
            window: Vec::new(),
        };
        assert(d.kept() =~= tail(d.state().history + d.state().output));
        d
    }

    /// Starts a new stream that may refer back to `history`.
    fn restart(&mut self, history: Vec<u8>)
        requires
            old(self).wf(),
        ensures
            final(self).wf(),
            final(self).bits() == old(self).bits(),
            final(self).resets() == old(self).resets(),
            final(self).kept() == old(self).kept(),
            final(self).state() == (StreamState {
                history: history@,
                ..fresh(expander_bits(old(self).bits()))
            }),
    {
        let bits: u8 = if self.window_bits < 9 {
            9
        } else {
            self.window_bits
        };
        let mut inflate = zlib::new_expander(bits);
        zlib::set_history(&mut inflate, history.as_slice());
        self.inflate = inflate;
    }

    /// Drops the expansion context.
    pub fn reset(&mut self)
        requires
            old(self).wf(),
        ensures
            final(self).wf(),
            final(self).bits() == old(self).bits(),
            final(self).resets() == old(self).resets(),
            final(self).state() == fresh(expander_bits(old(self).bits())),
            final(self).remembers(),
            is_decoder_reset(*old(self), *final(self)),
    {
        self.restart(Vec::new());
        self.window = Vec::new();
        assert(self.state() =~= fresh(expander_bits(old(self).bits())));
        assert(self.kept() =~= tail(self.state().history + self.state().output));
    }

    /// Expands a part of `part` into at most `room` more bytes of `output`.
    ///
    /// Gives the status, and how many bytes were taken in and given out.
    fn pump(&mut self, part: &[u8], room: usize, output: &mut Vec<u8>) -> (r: Result<
        (StepStatus, usize, usize),
        Error,
    >)
        requires
            old(self).wf(),
            0 < room <= MAX_STEP,
            part.len() <= MAX_STEP,
        ensures
            final(self).wf(),
            final(self).bits() == old(self).bits(),
            final(self).resets() == old(self).resets(),
            final(self).kept() == old(self).kept(),
            match r {
                Ok((status, consumed, produced)) => {
                    let given = final(output)@.skip(old(output)@.len() as int);
                    &&& consumed <= part.len()
                    &&& produced <= room
                    &&& given.len() == produced
                    &&& final(output)@ == old(output)@ + given
                    &&& final(self).state() == stepped(
                        old(self).state(),
                        part@.take(consumed as int),
                        given,
                    )
                    &&& status == StepStatus::StreamEnd ==> final(self).state().input.len() > 0
                },
                Err(e) => is_data_error(e),
            },
            forall|more: Seq<u8>| #[trigger]
                pumped(
                    old(self).state(),
                    part@,
                    more,
                    room as int,
                    r,
                    final(output)@.skip(old(output)@.len() as int),
                ),
    {
        let ghost before = self.state();
        let before_in: u64 = zlib::expander_total_in(&self.inflate);
        let before_out: u64 = zlib::expander_total_out(&self.inflate);
        let step = zlib::expand_step(&mut self.inflate, part, room);
        let status = match step.0 {
            Ok(s) => s,
            Err(_) => {
                let failure = Err(Error::Compression("inflate error: status code -3".to_owned()));
                proof {
                    assert forall|more: Seq<u8>| #[trigger]
                        pumped(
                            before,
                            part@,
                            more,
                            room as int,
                            failure,
                            output@.skip(old(output)@.len() as int),
                        ) by {
                        assert(zlib::expands_with(
                            before,
                            self.state(),
                            part@,
                            more,
                            room as int,
                            step.0,
                        ));
                    }
                }
                return failure;
            },
        };
        let mut chunk = step.1;
        let ghost buffer = chunk@;
        assert(part@.len() == part.len());
        let consumed: usize = (zlib::expander_total_in(&self.inflate) - before_in) as usize;
        let produced: usize = (zlib::expander_total_out(&self.inflate) - before_out) as usize;
        chunk.truncate(produced);
        output.append(&mut chunk);
        proof {
            let given = output@.skip(old(output)@.len() as int);
            assert(given =~= buffer.take(produced as int));
            assert(output@ =~= old(output)@ + given);
            assert(self.state() =~= stepped(before, part@.take(consumed as int), given));
            if consumed < part.len() {
                assert((before.input + part@.take(consumed as int)).len() < (before.input
                    + part@).len());
            }
            assert forall|more: Seq<u8>| #[trigger]
                pumped(
                    before,
                    part@,
                    more,
                    room as int,
                    Ok((status, consumed, produced)),
                    given,
                ) by {
                assert(zlib::expands_with(
                    before,
                    self.state(),
                    part@,
                    more,
                    room as int,
                    step.0,
                ));
                if let Some((new, n)) = ending(before, part@ + more) {
                    let whole = before.output + new;
                    let all = zlib::inflated(
                        before.window_bits,
                        before.history,
                        before.input + (part@ + more),
                    )->Valid_0;
                    assert(all =~= whole);
                    assert((before.output + given).subrange(
                        before.output.len() as int,
                        (before.output + given).len() as int,
                    ) =~= given);
                    assert(given =~= new.subrange(0, given.len() as int));
                    if self.state().output == whole {
                        assert(given =~= new);
                    }
                }
            }
        }
        Ok((status, consumed, produced))
    }

    /// Expands one run of input into `output`, of which at most `max_size` bytes
    /// are allowed. `capacity` is how far `output` may grow before it is enlarged.
    ///
    /// Gives the last status and the number of bytes taken in.
    #[verifier::rlimit(30)]
    fn inflate_chunk(
        &mut self,
        input: &[u8],
        output: &mut Vec<u8>,
        capacity: usize,
        max_size: usize,
    ) -> (r: Result<(StepStatus, usize), Error>)
        requires
            old(self).wf(),
            old(output)@.len() <= max_size,
        ensures
            final(self).wf(),
            final(self).bits() == old(self).bits(),
            final(self).resets() == old(self).resets(),
            final(self).kept() == old(self).kept(),
            match r {
                Ok((status, consumed)) => {
                    let given = final(output)@.skip(old(output)@.len() as int);
                    &&& consumed <= input.len()
                    &&& final(output)@.len() <= max_size
                    &&& final(output)@ == old(output)@ + given
                    &&& final(self).state() == stepped(
                        old(self).state(),
                        input@.take(consumed as int),
                        given,
                    )
                    &&& status == StepStatus::StreamEnd ==> final(self).state().input.len() > 0
                },
                Err(e) => is_data_error(e) || e is MessageTooLarge,
            },
            match expected(old(self).state(), input@) {
                Some(whole) => {
                    let new = whole.skip(old(self).state().output.len() as int);
                    if old(output)@.len() + new.len() <= max_size {
                        &&& r matches Ok((status, consumed)) && status != StepStatus::StreamEnd
                            && consumed == input.len()
                        &&& final(output)@ == old(output)@ + new
                    } else {
                        r == Err::<(StepStatus, usize), Error>(Error::MessageTooLarge)
                    }
                },
                None => true,
            },
            match ending(old(self).state(), input@) {
                Some((new, n)) => {
                    if old(output)@.len() + new.len() <= max_size {
                        &&& r matches Ok((status, consumed)) && status == StepStatus::StreamEnd
                            && consumed == n
                        &&& final(output)@ == old(output)@ + new
                    } else {
                        r == Err::<(StepStatus, usize), Error>(Error::MessageTooLarge)
                    }
                },
                None => true,
            },
            is_garbled(old(self).state(), input@) ==> r is Err,
    {
        let ghost begin = self.state();
        let ghost out0 = output@;
        let ghost goal = expected(begin, input@);
        let ghost last = ending(begin, input@);
        let mut limit: usize = capacity;
        let mut total_in: usize = 0;
        proof {
            assert(stepped(begin, input@.take(0), output@.skip(out0.len() as int)) =~= begin);
            assert(output@ =~= out0 + output@.skip(out0.len() as int));
        }
        loop
            invariant
                self.wf(),
                self.bits() == old(self).bits(),
                self.resets() == old(self).resets(),
                self.kept() == old(self).kept(),
                begin == old(self).state(),
                out0 == old(output)@,
                goal == expected(begin, input@),
                last == ending(begin, input@),
                output@ == out0 + output@.skip(out0.len() as int),
                out0.len() <= output@.len() <= max_size,
                total_in <= input.len(),
                self.state() == stepped(
                    begin,
                    input@.take(total_in as int),
                    output@.skip(out0.len() as int),
                ),
                goal matches Some(whole) ==> self.state().output.is_prefix_of(whole),
                last matches Some((new, n)) ==> output@.skip(
                    out0.len() as int,
                ).is_prefix_of(new) && total_in <= n,
            decreases (input.len() - total_in) + (max_size - output@.len()),
        {
            let end: usize = if input.len() - total_in > MAX_STEP {
                total_in + MAX_STEP
            } else {
                input.len()
            };
            let part = slice_subrange(input, total_in, end);
            let full = output.len() == max_size;
            if !full && output.len() >= limit {
                let grown: usize = if output.len() > 4096 {
                    output.len()
                } else {
                    4096
                };
                limit = output.len().saturating_add(grown);
            }
            let room: usize = if full {
                1
            } else {
                step_room(limit - output.len(), max_size - output.len())
            };
            let ghost before = self.state();
            let ghost given_before = output@;
            let ghost more = input@.skip(end as int);
            proof {
                assert(part@ + more =~= input@.skip(total_in as int));
                assert(before.input + (part@ + more) =~= begin.input + input@);
                assert(is_garbled(before, part@ + more) == is_garbled(begin, input@));
                assert(goal is Some ==> expected(before, part@ + more) == goal);
                if let Some((new, n)) = last {
                    lemma_ending_rest(
                        begin,
                        input@,
                        total_in as int,
                        given_before.skip(out0.len() as int),
                    );
                }
            }
            let pumping = self.pump(part, room, output);
            assert(pumped(
                before,
                part@,
                more,
                room as int,
                pumping,
                output@.skip(given_before.len() as int),
            ));
            let (status, consumed, produced) = match pumping {
                Ok(step) => step,
                Err(e) => {
                    return Err(e);
                },
            };
            proof {
                let given = output@.skip(given_before.len() as int);
                lemma_step_compose(
                    begin,
                    input@,
                    total_in as int,
                    consumed as int,
                    given_before.skip(out0.len() as int),
                    given,
                );
                assert(part@.take(consumed as int) =~= input@.subrange(
                    total_in as int,
                    total_in + consumed,
                ));
                assert(output@.skip(out0.len() as int) =~= given_before.skip(out0.len() as int)
                    + given);
                assert(output@ =~= out0 + output@.skip(out0.len() as int));
                if let Some(whole) = goal {
                    if produced < room && more.len() == 0 {
                        assert(output@.skip(out0.len() as int) =~= whole.skip(
                            begin.output.len() as int,
                        ));
                    }
                    if full && produced != 0 {
                        assert(whole.len() >= self.state().output.len());
                        assert(whole.skip(begin.output.len() as int).len() + out0.len() > max_size);
                    }
                }
                if let Some((new, n)) = last {
                    let done = given_before.skip(out0.len() as int);
                    let left = new.skip(done.len() as int);
                    assert(given.is_prefix_of(left));
                    assert(done + given =~= new.subrange(0, (done.len() + given.len()) as int));
                    if status == StepStatus::StreamEnd {
                        assert(done + left =~= new);
                    }
                }
            }
            total_in = total_in + consumed;
            if full && produced != 0 {
                return Err(Error::MessageTooLarge);
            }
            if status == StepStatus::StreamEnd || (consumed == 0 && produced == 0) {
                return Ok((status, total_in));
            }
            if produced < room && (total_in == input.len() || (!full && consumed < part.len())) {
                return Ok((status, total_in));
            }
        }
    }
}

/// The room that is made for a message of `len` compressed bytes at first: four
/// times as much, at least a kilobyte, and no more than is allowed.
pub fn first_capacity(len: usize, max_size: usize) -> (r: usize)
    ensures
        r == ({
            let wanted = if 4 * len > 1024 {
                4 * len
            } else {
                1024
            };
            if wanted < max_size {
                wanted
            } else {
                max_size as int
            }
        }),
        r == first_room(len as nat, max_size as nat),
{
    if len > max_size / 4 {
        return max_size;
    }
    let wanted: usize = if len > 256 {
        4 * len
    } else {
        1024
    };
    if wanted < max_size {
        wanted
    } else {
        max_size
    }
}

/// The least of what fits, what is allowed and what one step may ask for.
pub open spec fn least_room(spare: nat, left: nat) -> nat {
    let least = if spare < left {
        spare
    } else {
        left
    };
    if least < MAX_STEP {
        least
    } else {
        MAX_STEP as nat
    }
}

/// How much is asked for in one step, where `spare` bytes fit and `left` are
/// allowed: as much as possible.
fn step_room(spare: usize, left: usize) -> (r: usize)
    requires
        spare > 0,
        left > 0,
    ensures
        r == least_room(spare as nat, left as nat),
{
    let least: usize = if spare < left {
        spare
    } else {
        left
    };
    if least < MAX_STEP {
        least
    } else {
        MAX_STEP
    }
}

/// The state after taking in `input` and giving out `output`.
pub open spec fn stepped(state: StreamState, input: Seq<u8>, output: Seq<u8>) -> StreamState {
    StreamState { input: state.input + input, output: state.output + output, ..state }
}

/// Two steps are one.
proof fn lemma_step_compose(
    state: StreamState,
    input: Seq<u8>,
    a: int,
    b: int,
    x: Seq<u8>,
    y: Seq<u8>,
)
    requires
        0 <= a <= a + b <= input.len(),
    ensures
        stepped(stepped(state, input.take(a), x), input.subrange(a, a + b), y) == stepped(
            state,
            input.take(a + b),
            x + y,
        ),
{
    let one = stepped(stepped(state, input.take(a), x), input.subrange(a, a + b), y);
    let two = stepped(state, input.take(a + b), x + y);
    assert(one.input =~= two.input);
    assert(one.output =~= two.output);
}

/// What a started stream followed by `input` expands to, where it is valid and
/// does not end, and where what was given out so far is the beginning of it.
pub open spec fn expected(state: StreamState, input: Seq<u8>) -> Option<Seq<u8>> {
    match zlib::inflated(state.window_bits, state.history, state.input + input) {
        Inflated::Valid(_, StreamPoint::End(_)) => None,
        Inflated::Valid(whole, _) => if state.output.is_prefix_of(whole) {
            Some(whole)
        } else {
            None
        },
        _ => None,
    }
}

/// The error for data that is no valid DEFLATE stream.
pub open spec fn is_data_error(e: Error) -> bool {
    e matches Error::Compression(text) && text@ == "inflate error: status code -3"@
}

/// The error for a message of which the expander did not take in all.
pub open spec fn is_incomplete_error(e: Error) -> bool {
    e matches Error::Compression(text) && text@ == "incomplete deflate payload"@
}

/// Whether a started stream followed by `input` is not valid.
pub open spec fn is_garbled(state: StreamState, input: Seq<u8>) -> bool {
    zlib::inflated(state.window_bits, state.history, state.input + input) is Invalid
}

/// What a started stream that ends within `input` expands to beyond what was
/// given out so far, and how many bytes of `input` belong to it.
pub open spec fn ending(state: StreamState, input: Seq<u8>) -> Option<(Seq<u8>, nat)> {
    match zlib::inflated(state.window_bits, state.history, state.input + input) {
        Inflated::Valid(whole, StreamPoint::End(len)) => if state.output.is_prefix_of(whole) && state.input.len() <= len
            <= state.input.len() + input.len() {
            Some((whole.skip(state.output.len() as int), (len - state.input.len()) as nat))
        } else {
            None
        },
        _ => None,
    }
}

/// A stream that ends within `input` still does after some of it was taken in and
/// some of what it expands to was given out.
proof fn lemma_ending_rest(begin: StreamState, input: Seq<u8>, taken: int, given: Seq<u8>)
    requires
        ending(begin, input) matches Some((new, n)) && given.is_prefix_of(new) && 0 <= taken <= n,
    ensures
        ({
            let (new, n) = ending(begin, input)->0;
            ending(stepped(begin, input.take(taken), given), input.skip(taken)) == Some(
                (new.skip(given.len() as int), (n - taken) as nat),
            )
        }),
{
    let (new, n) = ending(begin, input)->0;
    let now = stepped(begin, input.take(taken), given);
    assert(now.input + input.skip(taken) =~= begin.input + input);
    let whole = zlib::inflated(begin.window_bits, begin.history, begin.input + input)->Valid_0;
    assert(whole =~= begin.output + new);
    assert(now.output =~= whole.subrange(0, now.output.len() as int));
    assert(whole.skip(now.output.len() as int) =~= new.skip(given.len() as int));
}

/// What a step of the expander does with `part`, where `more` will follow it.
spec fn pumped(
    before: StreamState,
    part: Seq<u8>,
    more: Seq<u8>,
    room: int,
    r: Result<(StepStatus, usize, usize), Error>,
    given: Seq<u8>,
) -> bool {
    &&& match expected(before, part + more) {
        Some(whole) => r matches Ok((status, consumed, produced)) && status
            != StepStatus::StreamEnd && (before.output + given).is_prefix_of(whole) && (produced
            < room ==> consumed == part.len() && (more.len() == 0 ==> before.output + given
            == whole)),
        None => true,
    }
    &&& match ending(before, part + more) {
        Some((new, n)) => {
            &&& r matches Ok((status, consumed, produced)) && consumed <= n && (status
                == StepStatus::StreamEnd ==> consumed == n && given == new) && (produced < room
                ==> if n <= part.len() {
                status == StepStatus::StreamEnd
            } else {
                consumed == part.len()
            })
            &&& given.is_prefix_of(new)
        },
        None => true,
    }
    &&& is_garbled(before, part + more) ==> (r matches Ok((status, consumed, produced)) ==> status
        != StepStatus::StreamEnd && (produced < room ==> consumed == part.len() && more.len() > 0))
}

/// Whether `left` completes what was given out so far to the goal.
spec fn goal_left(
    goal: (Seq<u8>, StreamState),
    given: Seq<u8>,
    left: Option<(Seq<u8>, StreamState)>,
) -> bool {
    left matches Some((rest, end)) && goal.0 == given + rest && goal.1 == end
}

/// The state of an expander that continues behind a stream that ended.
pub open spec fn restarted(bits: u8, history: Seq<u8>) -> StreamState {
    StreamState { history, ..fresh(expander_bits(bits)) }
}

/// What a message expands to, and the state of the expander afterwards, where all
/// of it is valid.
///
/// `input` is what is left of the message and the flush trailer behind it, and
/// `payload` how much of that is the message's own. Where a stream ends in it,
/// the next one may refer back to the tail of `kept` and of what came out, unless
/// the context is not kept; where it ends exactly with the message's own bytes,
/// the trailer is not read.
pub open spec fn message_of(
    state: StreamState,
    bits: u8,
    resets: bool,
    kept: Seq<u8>,
    input: Seq<u8>,
    payload: int,
) -> Option<(Seq<u8>, StreamState)>
    decreases input.len(),
{
    if input.len() == 0 {
        Some((Seq::empty(), state))
    } else {
        match (expected(state, input), ending(state, input)) {
            (Some(whole), _) => {
                let new = whole.skip(state.output.len() as int);
                Some((new, stepped(state, input, new)))
            },
            (None, Some((new, n))) => {
                let next = restarted(
                    bits,
                    if resets {
                        Seq::empty()
                    } else {
                        tail(kept + new)
                    },
                );
                if n == 0 {
                    None
                } else if n == payload {
                    Some((new, next))
                } else {
                    match message_of(
                        next,
                        bits,
                        resets,
                        kept + new,
                        input.skip(n as int),
                        payload - n,
                    ) {
                        Some((rest, end)) => Some((new + rest, end)),
                        None => None,
                    }
                }
            },
            (None, None) => None,
        }
    }
}

/// Whether a message is not valid: its first stream is not, or what follows a
/// stream that ends in it. The parameters are those of `message_of`.
pub open spec fn is_garbled_message(
    state: StreamState,
    bits: u8,
    resets: bool,
    kept: Seq<u8>,
    input: Seq<u8>,
    payload: int,
) -> bool
    decreases input.len(),
{
    if input.len() == 0 {
        false
    } else if is_garbled(state, input) {
        true
    } else {
        match ending(state, input) {
            Some((new, n)) => n != 0 && n != payload && is_garbled_message(
                restarted(
                    bits,
                    if resets {
                        Seq::empty()
                    } else {
                        tail(kept + new)
                    },
                ),
                bits,
                resets,
                kept + new,
                input.skip(n as int),
                payload - n,
            ),
            None => false,
        }
    }
}

impl DeflateDecoder {
    /// Expands `input`, whose first `payload_len` bytes are the message's own and
    /// the rest the flush trailer.
    ///
    /// Where a stream ends inside the message, the next one may refer back to what
    /// came out so far, unless the context is not kept. Where it ends exactly with
    /// the message's own bytes, the trailer is not read.
    fn inflate_input(
        &mut self,
        input: &Vec<u8>,
        payload_len: usize,
        output: &mut Vec<u8>,
        capacity: usize,
        max_size: usize,
    ) -> (r: Result<(), Error>)
        requires
            old(self).wf(),
            old(output)@.len() == 0,
            input.len() > 0,
        ensures
            final(self).wf(),
            final(self).bits() == old(self).bits(),
            final(self).resets() == old(self).resets(),
            final(self).kept() == old(self).kept(),
            match r {
                Ok(_) => {
                    &&& final(output)@.len() <= max_size
                    &&& !old(self).resets() && old(self).remembers() ==> tail(
                        final(self).state().history + final(self).state().output,
                    ) == tail(old(self).kept() + final(output)@)
                },
                Err(e) => is_data_error(e) || is_incomplete_error(e) || e is MessageTooLarge,
            },
            match message_of(
                old(self).state(),
                old(self).bits(),
                old(self).resets(),
                old(self).kept(),
                input@,
                payload_len as int,
            ) {
                Some((new, end)) => if new.len() <= max_size {
                    r is Ok && final(output)@ == new && final(self).state() == end
                } else {
                    r == Err::<(), Error>(Error::MessageTooLarge)
                },
                None => true,
            },
            is_garbled_message(
                old(self).state(),
                old(self).bits(),
                old(self).resets(),
                old(self).kept(),
                input@,
                payload_len as int,
            ) ==> (r matches Err(e) && (is_data_error(e) || e is MessageTooLarge)),
    {
        let ghost begin = self.state();
        let ghost goal = message_of(
            begin,
            self.bits(),
            self.resets(),
            self.kept(),
            input@,
            payload_len as int,
        );
        let ghost garbled = is_garbled_message(
            begin,
            self.bits(),
            self.resets(),
            self.kept(),
            input@,
            payload_len as int,
        );
        let mut pos: usize = 0;
        let mut first: bool = true;
        proof {
            assert(input@.skip(0) =~= input@);
            assert(output@ =~= seq![]);
            if self.remembers() {
                assert(self.kept() + output@ =~= self.kept());
                lemma_tail(begin.history + begin.output, seq![]);
                assert(begin.history + begin.output + seq![] =~= begin.history + begin.output);
                assert(tail(begin.history + begin.output) + seq![] =~= tail(
                    begin.history + begin.output,
                ));
            }
        }
        while pos < input.len()
            invariant
                self.wf(),
                self.bits() == old(self).bits(),
                self.resets() == old(self).resets(),
                self.kept() == old(self).kept(),
                begin == old(self).state(),
                goal == message_of(
                    begin,
                    old(self).bits(),
                    old(self).resets(),
                    old(self).kept(),
                    input@,
                    payload_len as int,
                ),
                garbled == is_garbled_message(
                    begin,
                    old(self).bits(),
                    old(self).resets(),
                    old(self).kept(),
                    input@,
                    payload_len as int,
                ),
                output@.len() <= max_size,
                pos <= input.len(),
                first ==> pos == 0 && self.state() == begin && output@.len() == 0,
                !first ==> self.state().input.len() == 0,
                garbled ==> is_garbled_message(
                    self.state(),
                    old(self).bits(),
                    old(self).resets(),
                    old(self).kept() + output@,
                    input@.skip(pos as int),
                    payload_len - pos,
                ),
                goal is Some ==> goal_left(
                    goal->0,
                    output@,
                    message_of(
                        self.state(),
                        old(self).bits(),
                        old(self).resets(),
                        old(self).kept() + output@,
                        input@.skip(pos as int),
                        payload_len - pos,
                    ),
                ),
                !old(self).resets() && old(self).remembers() ==> tail(
                    self.state().history + self.state().output,
                ) == tail(old(self).kept() + output@),
            decreases input.len() - pos, (if first { 1int } else { 0int }),
        {
            let rest = slice_subrange(input.as_slice(), pos, input.len());
            let ghost given_before = output@;
            let ghost before = self.state();
            proof {
                if first {
                    assert(rest@ =~= input@);
                }
            }
            let (status, consumed) = match self.inflate_chunk(rest, output, capacity, max_size) {
                Ok(step) => step,
                Err(e) => {
                    return Err(e);
                },
            };
            proof {
                let given = output@.skip(given_before.len() as int);
                if !old(self).resets() && old(self).remembers() {
                    lemma_tail(before.history + before.output, given);
                    lemma_tail(old(self).kept() + given_before, given);
                    assert(before.history + before.output + given =~= before.history + (
                    before.output + given));
                    assert(old(self).kept() + given_before + given =~= old(self).kept() + output@);
                }
                if consumed == rest.len() && first {
                    assert(rest@.take(consumed as int) =~= input@);
                    assert(output@ =~= given);
                }
            }
            pos = pos + consumed;
            if status != StepStatus::StreamEnd {
                if pos == input.len() {
                    return Ok(());
                }
                return Err(Error::Compression("incomplete deflate payload".to_owned()));
            }
            first = false;
            if self.no_context_takeover {
                self.restart(Vec::new());
            } else {
                let history = remember(&self.window, output);
                self.restart(history);
                proof {
                    assert(self.state().history + self.state().output =~= self.state().history);
                    lemma_tail(old(self).kept() + output@, seq![]);
                    assert(tail(old(self).kept() + output@) + seq![] =~= tail(
                        old(self).kept() + output@,
                    ));
                    assert(old(self).kept() + output@ + seq![] =~= old(self).kept() + output@);
                }
            }
            proof {
                if goal is Some || garbled {
                    let (new, n) = ending(before, rest@)->0;
                    let so_far = old(self).kept() + given_before;
                    assert(so_far + new =~= old(self).kept() + output@);
                    assert(self.state() =~= restarted(
                        old(self).bits(),
                        if old(self).resets() {
                            Seq::empty()
                        } else {
                            tail(so_far + new)
                        },
                    ));
                    assert(rest@.skip(n as int) =~= input@.skip(pos as int));
                    if pos != payload_len && goal is Some {
                        let left = message_of(
                            self.state(),
                            old(self).bits(),
                            old(self).resets(),
                            so_far + new,
                            rest@.skip(n as int),
                            payload_len - pos,
                        );
                        let (more, _) = left->0;
                        assert(given_before + (new + more) =~= output@ + more);
                    }
                }
            }
            if pos == payload_len {
                return Ok(());
            }
        }
        Ok(())
    }

    /// Expands a message of at most `max_size` bytes.
    pub fn decompress(&mut self, data: &[u8], max_size: usize) -> (r: Result<Bytes, Error>)
        requires
            old(self).wf(),
        ensures
            final(self).wf(),
            decompress_outcome(*old(self), data@, max_size as nat, r, *final(self)),
    {
        if self.no_context_takeover {
            self.reset();
        }
        let ghost begin = self.state();
        assert(begin == old(self).start());
        let capacity: usize = first_capacity(data.len(), max_size);
        let mut output: Vec<u8> = Vec::new();
        let mut input: Vec<u8> = slice_to_vec(data);
        input.push(0x00);
        input.push(0x00);
        input.push(0xff);
        input.push(0xff);
        assert(input@ =~= data@ + zlib::flush_trailer());
        match self.inflate_input(&input, data.len(), &mut output, capacity, max_size) {
            Ok(()) => {},
            Err(e) => {
                return Err(e);
            },
        }
        if !self.no_context_takeover {
            let history = remember(&self.window, &output);
            self.window = history;
        }
        Ok(buffers::bytes_from_vec(output))
    }
}

/// How `decompress` takes a decoder from `before` to `after`.
///
/// Where the message, with the flush trailer behind it, is valid, the result is
/// what it expands to, unless that is too large. Where it is not valid, the result
/// is an error.
pub open spec fn decompress_outcome(
    before: DeflateDecoder,
    data: Seq<u8>,
    max_size: nat,
    r: Result<Bytes, Error>,
    after: DeflateDecoder,
) -> bool {
    let start = before.start();
    let input = data + zlib::flush_trailer();
    &&& after.bits() == before.bits()
    &&& after.resets() == before.resets()
    &&& match r {
        Ok(message) => {
            &&& buffers::contents(message).len() <= max_size
            &&& !before.resets() && before.remembers() ==> after.remembers()
        },
        Err(e) => is_data_error(e) || is_incomplete_error(e) || e is MessageTooLarge,
    }
    &&& match message_of(
        start,
        before.bits(),
        before.resets(),
        if before.resets() {
            Seq::empty()
        } else {
            before.kept()
        },
        input,
        data.len() as int,
    ) {
        Some((new, end)) => if new.len() <= max_size {
            &&& r matches Ok(message) && buffers::contents(message) == new
            &&& after.state() == end
        } else {
            r == Err::<Bytes, Error>(Error::MessageTooLarge)
        },
        None => true,
    }
    &&& is_garbled_message(
        start,
        before.bits(),
        before.resets(),
        if before.resets() {
            Seq::empty()
        } else {
            before.kept()
        },
        input,
        data.len() as int,
    ) ==> (r matches Err(e) && (is_data_error(e) || e is MessageTooLarge))
}

/// Compressor and expander of one connection.
pub struct DeflateContext {
    /// Encoder for outgoing messages.
    pub encoder: DeflateEncoder,
    /// Decoder for incoming messages.
    pub decoder: DeflateDecoder,
    /// Configuration.
    pub config: DeflateConfig,
}

/// An encoder that has just been made.
pub open spec fn is_new_encoder(
    e: DeflateEncoder,
    window_bits: u8,
    no_context_takeover: bool,
    level: u32,
    threshold: usize,
) -> bool {
    &&& e.state() == fresh(window_bits)
    &&& e.resets() == no_context_takeover
    &&& e.level() == level
    &&& e.least() == threshold
}

/// A decoder that has just been made.
pub open spec fn is_new_decoder(
    d: DeflateDecoder,
    window_bits: u8,
    no_context_takeover: bool,
) -> bool {
    &&& d.wf()
    &&& d.bits() == window_bits
    &&& d.resets() == no_context_takeover
    &&& d.state() == fresh(expander_bits(window_bits))
    &&& d.remembers()
}

/// A new context of a server.
pub open spec fn is_server_context(ctx: DeflateContext, config: DeflateConfig) -> bool {
    &&& ctx.config == config
    &&& is_new_encoder(
        ctx.encoder,
        config.server_max_window_bits,
        config.server_no_context_takeover,
        config.compression_level,
        config.compression_threshold,
    )
    &&& is_new_decoder(
        ctx.decoder,
        config.client_max_window_bits,
        config.client_no_context_takeover,
    )
}

/// A new context of a client.
pub open spec fn is_client_context(ctx: DeflateContext, config: DeflateConfig) -> bool {
    &&& ctx.config == config
    &&& is_new_encoder(
        ctx.encoder,
        config.client_max_window_bits,
        config.client_no_context_takeover,
        config.compression_level,
        config.compression_threshold,
    )
    &&& is_new_decoder(
        ctx.decoder,
        config.server_max_window_bits,
        config.server_no_context_takeover,
    )
}

impl DeflateContext {
    /// Creates the context of a server.
    pub fn server(config: DeflateConfig) -> (r: Self)
        requires
            9 <= config.server_max_window_bits <= 15,
            8 <= config.client_max_window_bits <= 15,
            config.compression_level <= 9,
        ensures
            is_server_context(r, config),
    {
        DeflateContext {
            encoder: DeflateEncoder::new(
                config.server_max_window_bits,
                config.server_no_context_takeover,
                config.compression_level,
                config.compression_threshold,
            ),
            decoder: DeflateDecoder::new(
                config.client_max_window_bits,
                config.client_no_context_takeover,
            ),
            config,
        }
    }

    /// Creates the context of a client.
    pub fn client(config: DeflateConfig) -> (r: Self)
        requires
            8 <= config.server_max_window_bits <= 15,
            9 <= config.client_max_window_bits <= 15,
            config.compression_level <= 9,
        ensures
            is_client_context(r, config),
    {
        DeflateContext {
            encoder: DeflateEncoder::new(
                config.client_max_window_bits,
                config.client_no_context_takeover,
                config.compression_level,
                config.compression_threshold,
            ),
            decoder: DeflateDecoder::new(
                config.server_max_window_bits,
                config.server_no_context_takeover,
            ),
            config,
        }
    }

    /// Compresses a message.
    pub fn compress(&mut self, data: &[u8]) -> (r: Result<Option<Bytes>, Error>)
        requires
            data@.len() + 64 <= isize::MAX,
        ensures
            compress_outcome(old(self).encoder, data@, r, final(self).encoder),
            final(self).decoder == old(self).decoder,
            final(self).config == old(self).config,
    {
        self.encoder.compress(data)
    }

    /// Expands a message.
    pub fn decompress(&mut self, data: &[u8], max_size: usize) -> (r: Result<Bytes, Error>)
        requires
            old(self).decoder.wf(),
        ensures
            final(self).decoder.wf(),
            decompress_outcome(old(self).decoder, data@, max_size as nat, r, final(self).decoder),
            final(self).encoder == old(self).encoder,
            final(self).config == old(self).config,
    {
        self.decoder.decompress(data, max_size)
    }
}

/// Whether a stream stands where a new one may follow, with `output` given out: at
/// its start, or between two blocks.
pub open spec fn may_follow(window_bits: u8, stream: Seq<u8>, output: Seq<u8>) -> bool {
    ||| stream.len() == 0 && output.len() == 0
    ||| zlib::stands(window_bits, Seq::empty(), stream, output)
}

/// Whether an expander has taken in `front`, and behind it what a compressor gave
/// out, and has given out `before` and what the compressor took in.
pub open spec fn follows(
    e: StreamState,
    d: StreamState,
    front: Seq<u8>,
    before: Seq<u8>,
) -> bool {
    &&& may_follow(e.window_bits, front, before)
    &&& d.input == front + e.output
    &&& d.output == before + e.input
}

/// Whether a decoder is where an encoder needs it to be: their windows agree,
/// and unless the context is reset for each message, the decoder has taken in
/// all that the encoder gave out since it was last started, behind what came
/// before, and stands where a new stream may follow.
pub open spec fn in_step(e: DeflateEncoder, d: DeflateDecoder) -> bool {
    &&& e.resets() == d.resets()
    &&& e.state().window_bits == expander_bits(d.bits())
    &&& !e.resets() ==> {
        &&& d.state().window_bits == e.state().window_bits
        &&& e.state().history == Seq::<u8>::empty()
        &&& d.state().history == Seq::<u8>::empty()
        &&& may_follow(e.state().window_bits, d.state().input, d.state().output)
        &&& exists|front: Seq<u8>, before: Seq<u8>| #[trigger]
            follows(e.state(), d.state(), front, before)
    }
}

/// A server and a client with the same configuration start in step, in both
/// directions.
pub proof fn law_contexts_start_in_step(
    config: DeflateConfig,
    server: DeflateContext,
    client: DeflateContext,
)
    requires
        is_server_context(server, config),
        is_client_context(client, config),
        9 <= config.server_max_window_bits <= 15,
        9 <= config.client_max_window_bits <= 15,
    ensures
        in_step(server.encoder, client.decoder),
        in_step(client.encoder, server.decoder),
{
    let none = Seq::<u8>::empty();
    assert(none + none =~= none);
    assert(follows(server.encoder.state(), client.decoder.state(), none, none));
    assert(follows(client.encoder.state(), server.decoder.state(), none, none));
}

/// Expanding what was compressed gives the message back, and keeps both sides in
/// step.
pub proof fn law_round_trip(
    e0: DeflateEncoder,
    data: Seq<u8>,
    payload: Bytes,
    e1: DeflateEncoder,
    d0: DeflateDecoder,
    max_size: nat,
    r: Result<Bytes, Error>,
    d1: DeflateDecoder,
)
    requires
        in_step(e0, d0),
        compress_outcome(e0, data, Ok(Some(payload)), e1),
        decompress_outcome(d0, buffers::contents(payload), max_size, r, d1),
        data.len() <= max_size,
    ensures
        r matches Ok(message) && buffers::contents(message) == data,
        in_step(e1, d1),
{
    let start = e0.start();
    let out = buffers::contents(payload) + zlib::flush_trailer();
    let end = stepped(start, data, out);
    let from = d0.start();
    let none = Seq::<u8>::empty();
    assert(start.history =~= none);
    assert(from.history =~= none);
    let (front, before) = if e0.resets() {
        (none, none)
    } else {
        choose|front: Seq<u8>, before: Seq<u8>| #[trigger]
            follows(e0.state(), d0.state(), front, before)
    };
    assert(from.input =~= front + start.output);
    assert(from.output =~= before + start.input);
    let whole = before + end.input;
    assert(front + end.output =~= from.input + out);
    assert(whole =~= from.output + data);
    if front.len() == 0 && before.len() == 0 {
        assert(front + end.output =~= end.output);
        assert(whole =~= end.input);
    } else {
        assert(zlib::stands(start.window_bits, none, front + end.output, before + end.input));
    }
    assert(zlib::stands(from.window_bits, none, from.input + out, whole));
    assert(whole.subrange(0, from.output.len() as int) =~= from.output);
    assert(from.output.is_prefix_of(whole));
    assert(whole.skip(from.output.len() as int) =~= data);
    assert(d1.state() == stepped(from, out, data));
    assert(follows(e1.state(), d1.state(), front, before));
}

/// A message that is sent as it is leaves both sides in step.
pub proof fn law_plain_message_keeps_step(
    e0: DeflateEncoder,
    data: Seq<u8>,
    e1: DeflateEncoder,
    d: DeflateDecoder,
)
    requires
        in_step(e0, d),
        compress_outcome(e0, data, Ok(None), e1),
    ensures
        in_step(e1, d),
{
    if !e0.resets() && data.len() >= e0.least() {
        assert(d.state().input + Seq::<u8>::empty() =~= d.state().input);
        assert(d.state().output + Seq::<u8>::empty() =~= d.state().output);
        assert(follows(e1.state(), d.state(), d.state().input, d.state().output));
    }
}

/// Whether a message went from an encoder to a decoder, which were `e0` and `d0`
/// before and `e1` and `d1` afterwards, and arrived as `got`: as it is, where the
/// encoder says so, and otherwise compressed. `got` is `None` where it was not
/// accepted.
pub open spec fn is_exchange(
    e0: DeflateEncoder,
    d0: DeflateDecoder,
    data: Seq<u8>,
    max_size: nat,
    got: Option<Seq<u8>>,
    e1: DeflateEncoder,
    d1: DeflateDecoder,
) -> bool {
    ||| compress_outcome(e0, data, Ok(None), e1) && d1 == d0 && got == Some(data)
    ||| exists|payload: Bytes, r: Result<Bytes, Error>|
        {
            &&& #[trigger] compress_outcome(e0, data, Ok(Some(payload)), e1)
            &&& #[trigger] decompress_outcome(d0, buffers::contents(payload), max_size, r, d1)
            &&& got == match r {
                Ok(message) => Some(buffers::contents(message)),
                Err(_) => None,
            }
        }
}

/// Whether the messages `sent` went one after the other from an encoder to a
/// decoder and arrived as `got`.
pub open spec fn is_conversation(
    es: Seq<DeflateEncoder>,
    ds: Seq<DeflateDecoder>,
    sent: Seq<Seq<u8>>,
    max_size: nat,
    got: Seq<Option<Seq<u8>>>,
) -> bool {
    &&& es.len() == sent.len() + 1
    &&& ds.len() == sent.len() + 1
    &&& got.len() == sent.len()
    &&& forall|i: int|
        0 <= i < sent.len() ==> is_exchange(
            es[i],
            ds[i],
            #[trigger] sent[i],
            max_size,
            got[i],
            es[i + 1],
            ds[i + 1],
        )
}

/// Of any number of messages, compressed or sent as they are, each arrives as it
/// was sent: whatever one message does to the context, the next is understood.
pub proof fn law_every_message_arrives(
    es: Seq<DeflateEncoder>,
    ds: Seq<DeflateDecoder>,
    sent: Seq<Seq<u8>>,
    max_size: nat,
    got: Seq<Option<Seq<u8>>>,
    n: int,
)
    requires
        is_conversation(es, ds, sent, max_size, got),
        in_step(es[0], ds[0]),
        forall|i: int| 0 <= i < sent.len() ==> (#[trigger] sent[i]).len() <= max_size,
        0 <= n <= sent.len(),
    ensures
        in_step(es[n], ds[n]),
        forall|i: int| 0 <= i < n ==> #[trigger] got[i] == Some(sent[i]),
    decreases n,
{
    if n > 0 {
        law_every_message_arrives(es, ds, sent, max_size, got, n - 1);
        let (e0, d0, e1, d1) = (es[n - 1], ds[n - 1], es[n], ds[n]);
        let data = sent[n - 1];
        assert(is_exchange(e0, d0, data, max_size, got[n - 1], e1, d1));
        if compress_outcome(e0, data, Ok(None), e1) && d1 == d0 && got[n - 1] == Some(data) {
            law_plain_message_keeps_step(e0, data, e1, d0);
        } else {
            let (payload, r) = choose|payload: Bytes, r: Result<Bytes, Error>|
                {
                    &&& #[trigger] compress_outcome(e0, data, Ok(Some(payload)), e1)
                    &&& #[trigger] decompress_outcome(
                        d0,
                        buffers::contents(payload),
                        max_size,
                        r,
                        d1,
                    )
                    &&& got[n - 1] == match r {
                        Ok(message) => Some(buffers::contents(message)),
                        Err(_) => None,
                    }
                };
            law_round_trip(e0, data, payload, e1, d0, max_size, r, d1);
        }
    }
}

/// A message that expands to more than is allowed is refused as too large, however
/// little of it was sent.
pub proof fn law_oversized_message_is_refused(
    e0: DeflateEncoder,
    data: Seq<u8>,
    payload: Bytes,
    e1: DeflateEncoder,
    d0: DeflateDecoder,
    max_size: nat,
    r: Result<Bytes, Error>,
    d1: DeflateDecoder,
)
    requires
        in_step(e0, d0),
        compress_outcome(e0, data, Ok(Some(payload)), e1),
        decompress_outcome(d0, buffers::contents(payload), max_size, r, d1),
        data.len() > max_size,
    ensures
        r == Err::<Bytes, Error>(Error::MessageTooLarge),
{
    let start = e0.start();
    let out = buffers::contents(payload) + zlib::flush_trailer();
    let end = stepped(start, data, out);
    let from = d0.start();
    let none = Seq::<u8>::empty();
    assert(start.history =~= none);
    assert(from.history =~= none);
    let (front, before) = if e0.resets() {
        (none, none)
    } else {
        choose|front: Seq<u8>, before: Seq<u8>| #[trigger]
            follows(e0.state(), d0.state(), front, before)
    };
    assert(from.input =~= front + start.output);
    assert(from.output =~= before + start.input);
    let whole = before + end.input;
    assert(front + end.output =~= from.input + out);
    assert(whole =~= from.output + data);
    if front.len() == 0 && before.len() == 0 {
        assert(front + end.output =~= end.output);
        assert(whole =~= end.input);
    } else {
        assert(zlib::stands(start.window_bits, none, front + end.output, before + end.input));
    }
    assert(zlib::stands(from.window_bits, none, from.input + out, whole));
    assert(whole.subrange(0, from.output.len() as int) =~= from.output);
    assert(whole.skip(from.output.len() as int) =~= data);
}

/// A message is compressed from the threshold on and only where that makes it
/// shorter; what is sent lacks exactly the flush trailer.
pub proof fn law_compressed_is_shorter(
    e0: DeflateEncoder,
    data: Seq<u8>,
    message: Option<Bytes>,
    e1: DeflateEncoder,
)
    requires
        compress_outcome(e0, data, Ok(message), e1),
    ensures
        message matches Some(payload) ==> buffers::contents(payload).len() < data.len()
            && data.len() >= e0.least(),
        message is None && data.len() >= e0.least() ==> e1.state().input.len() == 0
            && e1.state().output.len() == 0,
        e1.level() == e0.level(),
        e1.resets() == e0.resets(),
        e1.least() == e0.least(),
        e1.state().window_bits == e0.state().window_bits,
{
}

/// The trailer is taken off where it is there, and nothing else is; a message is sent
/// compressed exactly where it shrank.
pub proof fn law_only_the_trailer_is_left_out(payload: Seq<u8>, out: Seq<u8>, len: nat)
    ensures
        without_trailer(payload + seq![0u8, 0u8, 255u8, 255u8]) == payload,
        without_trailer(out) == out || out == without_trailer(out) + seq![0u8, 0u8, 255u8, 255u8],
        compressed_message(out, len) is Some <==> without_trailer(out).len() < len,
        compressed_message(out, len) matches Some(p) ==> p == without_trailer(out),
{
    let t = seq![0u8, 0u8, 255u8, 255u8];
    assert(t =~= zlib::flush_trailer());
    let whole = payload + t;
    assert(whole.skip(whole.len() - 4) =~= t);
    assert(whole.take(whole.len() - 4) =~= payload);
    if without_trailer(out) != out {
        assert(out =~= out.take(out.len() - 4) + out.skip(out.len() - 4));
    }
}

/// What is remembered is the end of what was given out: 32 KiB of it, or all.
pub proof fn law_the_end_is_remembered(s: Seq<u8>)
    ensures
        tail(s).len() == (if s.len() < 32768 {
            s.len()
        } else {
            32768
        }),
        tail(s) == s.skip(s.len() - tail(s).len()),
{
    assert(s.skip(0) =~= s);
}

/// A step has room for as much as is spare, as is left, and as one step may give, and
/// for no less than the least of these.
pub proof fn law_room_of_a_step(spare: nat, left: nat)
    ensures
        least_room(spare, left) <= spare,
        least_room(spare, left) <= left,
        least_room(spare, left) <= MAX_STEP,
        least_room(spare, left) == spare || least_room(spare, left) == left || least_room(
            spare,
            left,
        ) == MAX_STEP,
{
}

/// A message that is long enough goes uncompressed only where compressing it does not
/// make it shorter.
pub proof fn law_uncompressed_only_without_gain(
    e0: DeflateEncoder,
    data: Seq<u8>,
    e1: DeflateEncoder,
)
    requires
        compress_outcome(e0, data, Ok(None), e1),
        data.len() >= e0.least(),
    ensures
        exists|out: Seq<u8>| #[trigger]
            is_compression(e0.start(), data, out) && without_trailer(out).len() >= data.len(),
{
    let out = choose|out: Seq<u8>| #[trigger]
        is_compression(e0.start(), data, out) && compressed_message(out, data.len()) is None;
    assert(without_trailer(out).len() >= data.len());
}

/// A payload that is no compressed data is refused, and no message is longer than allowed.
pub proof fn law_garbled_payload_is_refused(
    d0: DeflateDecoder,
    data: Seq<u8>,
    max_size: nat,
    r: Result<Bytes, Error>,
    d1: DeflateDecoder,
)
    requires
        decompress_outcome(d0, data, max_size, r, d1),
    ensures
        zlib::inflated(
            d0.start().window_bits,
            d0.start().history,
            d0.start().input + data + zlib::flush_trailer(),
        ) is Invalid ==> r is Err,
        r matches Ok(message) ==> buffers::contents(message).len() <= max_size,
        d1.bits() == d0.bits(),
        d1.resets() == d0.resets(),
{
    let input = data + zlib::flush_trailer();
    assert(d0.start().input + input =~= d0.start().input + data + zlib::flush_trailer());
    assert(input.len() > 0);
}

/// An encoder and a decoder that are reset are as if they were new: they go on from
/// nothing, with the windows and the settings that they had.
pub proof fn law_reset_starts_over(
    e0: DeflateEncoder,
    e1: DeflateEncoder,
    d0: DeflateDecoder,
    d1: DeflateDecoder,
)
    requires
        is_encoder_reset(e0, e1),
        is_decoder_reset(d0, d1),
    ensures
        e1.state().input.len() == 0,
        e1.state().output.len() == 0,
        e1.state().history.len() == 0,
        e1.state().window_bits == e0.state().window_bits,
        e1.level() == e0.level(),
        e1.least() == e0.least(),
        e1.resets() == e0.resets(),
        e1.start() == e1.state(),
        d1.state().input.len() == 0,
        d1.state().output.len() == 0,
        d1.state().history.len() == 0,
        d1.bits() == d0.bits(),
        d1.resets() == d0.resets(),
        e0.resets() ==> e0.start() == e1.state(),
        !e0.resets() ==> e0.start() == e0.state(),
{
}

} // verus!
