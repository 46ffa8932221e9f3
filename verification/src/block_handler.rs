//! General purpose implementation of block transfer support (RFC 7959).
//!
//! Supports both Block1 and Block2 and is intended to be compliant with the
//! standard but lenient to tolerate mixed use cases.  In-memory caching of
//! request and response bodies is used to achieve the generic interaction.

use core::time::Duration;
use lru_time_cache::LruCache;
use vstd::prelude::*;
use vstd::slice::{slice_subrange, slice_to_vec};
use vstd::string::StringExecFns;

pub mod block_value;

pub use block_value::BlockValue;

use crate::block_handler::block_value::{is_block_size, pow2, size_exponent_for};
use crate::error::{
    bad_request_fault, internal_fault, not_handled_fault, size_exponent_text, type_bounds_text,
    HandlingError, HandlingFault, InvalidBlockValue,
};
use crate::header::{byte_of_class, Header, MessageClass, ResponseType};
use crate::option_map::{clone_values, lookup, with_added, with_set};
use crate::option_value::{be_value, OptionValueType};
use crate::packet::{first_value, option_number, size_without_payload, CoapOption, Packet};
use crate::request::{method_of, CoapRequest};
use crate::text::{decimal_string, decimal_text};
use crate::wire::PacketView;

verus! {

/// The maximum amount adding a block1 & block2 option to the message could add
/// to the total size.
pub const BLOCK_OPTIONS_MAX_LENGTH: usize = 12;

/// Maximum amount we're willing to extend a client cached payload without the
/// client committing to having to send us the bytes.  This prevents a common
/// denial of service (DoS) attack where the client claims that they want to
/// send say block num 10000 of a 1KB block size request and we preallocate
/// 10MB of space to honor the request and explode.  Note this is not limiting
/// the total cached payload we can accept, merely the amount the client can
/// "jump" on us between each request.  We need some wiggle room here to
/// accommodate for retransmits and such but not so much that we open ourselves
/// up to the DoS.
pub const MAXIMUM_UNCOMMITTED_BUFFER_RESERVE_LENGTH: usize = 16384;

/// Default taken from RFC 7252.
pub const DEFAULT_MAX_TOTAL_MESSAGE_SIZE: usize = 1152;

/// The longest time, in seconds, that cached state may be kept without
/// interaction.
pub const MAXIMUM_CACHE_EXPIRY_SECONDS: u64 = 0xFFFF_FFFF;

/// The cache of `lru_time_cache`, which this module holds its states in.
#[verifier::external_type_specification]
#[verifier::external_body]
#[verifier::reject_recursive_types(Key)]
#[verifier::reject_recursive_types(Value)]
pub struct ExLruCache<Key, Value>(LruCache<Key, Value>);

/// `LruCache::with_expiry_duration`: an empty cache whose entries expire
/// after the given time without use. The cache adds that time to instants on
/// every later access, so a time that an instant cannot take is left out.
#[verifier::external_body]
fn new_cache<Endpoint: Ord + Clone>(seconds: u64, nanoseconds: u32) -> (states: LruCache<
    RequestCacheKey<Endpoint>,
    BlockState,
>)
    requires
        seconds <= MAXIMUM_CACHE_EXPIRY_SECONDS,
{
    LruCache::with_expiry_duration(Duration::new(seconds, nanoseconds))
}

/// `LruCache::entry` and `Entry::or_insert`: the state kept under `key`, or
/// `fresh`, newly kept, where none is kept or what was kept has expired.
/// Which of the two it is depends on the clock and on what the cache dropped,
/// so nothing is claimed of the state that comes back. The cache finds a key
/// again by the order of the endpoints, which has to agree with their
/// clones.
#[verifier::external_body]
fn state_entry<'a, Endpoint: Ord + Clone>(
    states: &'a mut LruCache<RequestCacheKey<Endpoint>, BlockState>,
    key: RequestCacheKey<Endpoint>,
    fresh: BlockState,
) -> (state: &'a mut BlockState) {
    states.entry(key).or_insert(fresh)
}

/// A span of time: whole seconds, and the nanoseconds beyond them.
#[derive(Debug, Clone, Copy, PartialEq, Eq, Structural)]
pub struct Expiry {
    pub seconds: u64,
    pub nanoseconds: u32,
}

impl Expiry {
    /// The span of that many whole seconds.
    pub fn from_secs(seconds: u64) -> (expiry: Self)
        ensures
            expiry == (Expiry { seconds, nanoseconds: 0 }),
    {
        Expiry { seconds, nanoseconds: 0 }
    }

    /// The span of that many milliseconds.
    pub fn from_millis(millis: u64) -> (expiry: Self)
        ensures
            expiry.seconds == millis / 1000,
            expiry.nanoseconds == (millis % 1000) * 1_000_000,
    {
        Expiry { seconds: millis / 1000, nanoseconds: ((millis % 1000) * 1_000_000) as u32 }
    }
}

/// The configuration for [`BlockHandler`].
pub struct BlockHandlerConfig {
    /// Total framed message size to offer to the peer (packet size minus
    /// transport overhead).  In an ideal world this would be computed based on
    /// the endpoint MTU or even part of a more structured Endpoint API but
    /// we're pretty far off from that today.  Just make it configurable then.
    ///
    /// Note this is _not_ the suggested block size as that is referring only
    /// to the payload body. Because we have dynamic overhead for the CoAP
    /// message itself (for example if we add more options), we need to
    /// dynamically tune this to meet the physical requirements of the link
    /// rather than just some arbitrary limiting of the payload block size.
    pub max_total_message_size: usize,
    /// Length of time without interaction for cached responses to live (bumped
    /// each time the client requests some portion of the response).
    pub cache_expiry_duration: Expiry,
}

impl Default for BlockHandlerConfig {
    /// A total message size of 1152 bytes and an expiry of 120 seconds.
    fn default() -> (config: Self)
        ensures
            config.max_total_message_size == DEFAULT_MAX_TOTAL_MESSAGE_SIZE,
            config.cache_expiry_duration == (Expiry { seconds: 120, nanoseconds: 0 }),
    {
        Self {
            max_total_message_size: DEFAULT_MAX_TOTAL_MESSAGE_SIZE,
            cache_expiry_duration: Expiry::from_secs(120),
        }
    }
}

/// Cache key for uniquely identifying a request.
#[derive(Ord, PartialOrd, Eq, PartialEq, Clone)]
pub struct RequestCacheKey<Endpoint: Ord + Clone> {
    /// Request type as an integer to make it easy to derive Ord.
    request_type_ord: u8,
    path: Vec<String>,
    requester: Option<Endpoint>,
}

impl<Endpoint: Ord + Clone> RequestCacheKey<Endpoint> {
    /// The code byte of the request method.
    pub closed spec fn request_type(self) -> u8 {
        self.request_type_ord
    }

    /// The segments of the path.
    pub closed spec fn path(self) -> Seq<Seq<char>> {
        Seq::new(self.path@.len(), |i: int| self.path@[i]@)
    }

    /// The endpoint that sent the request.
    pub closed spec fn requester(self) -> Option<Endpoint> {
        self.requester
    }

    /// The key of a request: its method, the segments of its path (none
    /// where a segment is not valid UTF-8) and a copy of its source.
    pub fn from(request: &CoapRequest<Endpoint>) -> (key: Self)
        ensures
            key.request_type() == byte_of_class(
                MessageClass::Request(method_of(request.message.header.code)),
            ),
            ({
                let values = crate::request::values_of(
                    request.message.options@,
                    option_number(CoapOption::UriPath),
                );
                if crate::request::first_invalid(values) == values.len() {
                    key.path() == Seq::new(
                        values.len(),
                        |i: int| vstd::utf8::decode_utf8(values[i]),
                    )
                } else {
                    key.path() == Seq::<Seq<char>>::empty()
                }
            }),
            request.source is Some <==> key.requester() is Some,
            request.source matches Some(source) ==> cloned(source, key.requester()->0),
    {
        let path = match request.get_path_as_vec() {
            Ok(path) => path,
            Err(_) => Vec::new(),
        };
        let requester = match &request.source {
            Some(source) => Some(source.clone()),
            None => None,
        };
        let key = Self {
            request_type_ord: u8::from(MessageClass::Request(*request.get_method())),
            path,
            requester,
        };
        assert(key.path() =~= Seq::new(key.path@.len(), |i: int| key.path@[i]@));
        key
    }
}

/// The state of a block-wise transfer as plain values.
pub struct BlockStateView {
    pub last_request_block2: Option<BlockValue>,
    pub cached_response: Option<PacketView>,
    pub cached_request_payload: Option<Seq<u8>>,
}

/// What a state always holds: a size exponent within its three bits, and a
/// cached response whose token length fits the header.
pub open spec fn state_ok(state: BlockStateView) -> bool {
    &&& state.last_request_block2 matches Some(block) ==> block.size_exponent <= 7
    &&& state.cached_response matches Some(response) ==> response.token.len() < 16
}

/// State that is maintained over several requests.
#[derive(Debug)]
pub struct BlockState {
    /// Last client request's block2 value (if any), which can either mean the
    /// client's attempt to suggest a block size or a request that came in
    /// after we expired our cache.
    last_request_block2: Option<BlockValue>,
    /// Packet we need to serve from if any future block-wise transfer requests
    /// come in.
    cached_response: Option<Packet>,
    /// Payload we are building up from a series of client requests.  Note that
    /// there is a deliberate lack of symmetry between the cached response and
    /// request due to the fact that the client is responsible for issuing
    /// multiple requests as we build up the cached payload.  This means that
    /// the client is ultimately responsible for making sure the last submitted
    /// packet is the one containing the interesting options we will need to
    /// handle the request and that we simply need to copy the payload into it.
    cached_request_payload: Option<Vec<u8>>,
}

impl BlockState {
    #[verifier::type_invariant]
    spec fn well_formed(self) -> bool {
        state_ok(self.view())
    }

    /// The state as plain values.
    pub closed spec fn view(self) -> BlockStateView {
        BlockStateView {
            last_request_block2: self.last_request_block2,
            cached_response: match self.cached_response {
                Some(response) => Some(response@),
                None => None,
            },
            cached_request_payload: match self.cached_request_payload {
                Some(payload) => Some(payload@),
                None => None,
            },
        }
    }

    /// The state before any exchange: nothing requested, nothing cached.
    pub open spec fn fresh() -> BlockStateView {
        BlockStateView {
            last_request_block2: None,
            cached_response: None,
            cached_request_payload: None,
        }
    }

    /// The client's most recent Block2 request, if any.
    pub fn last_request_block2(&self) -> (block: Option<BlockValue>)
        ensures
            block == self@.last_request_block2,
            state_ok(self@),
    {
        proof {
            use_type_invariant(self);
        }
        self.last_request_block2
    }

    /// The response that is delivered piece by piece, if any.
    pub fn cached_response(&self) -> (response: Option<&Packet>)
        ensures
            match response {
                Some(packet) => self@.cached_response == Some(packet@),
                None => self@.cached_response is None,
            },
    {
        self.cached_response.as_ref()
    }

    /// The inbound payload that is being put together, if any.
    pub fn cached_request_payload(&self) -> (payload: Option<&Vec<u8>>)
        ensures
            match payload {
                Some(bytes) => self@.cached_request_payload == Some(bytes@),
                None => self@.cached_request_payload is None,
            },
    {
        self.cached_request_payload.as_ref()
    }
}

impl Default for BlockState {
    fn default() -> (state: Self)
        ensures
            state@ == BlockState::fresh(),
    {
        BlockState { last_request_block2: None, cached_response: None, cached_request_payload: None }
    }
}

/// The messages of a request and of the response prepared for it.
pub struct Exchange {
    pub message: PacketView,
    pub response: Option<PacketView>,
}

/// What one interception does: its result, and the exchange and the state
/// as it leaves them.
pub struct Step {
    pub result: Result<bool, HandlingFault>,
    pub exchange: Exchange,
    pub state: BlockStateView,
}

/// The messages of a request.
pub open spec fn exchange_of<Endpoint>(request: CoapRequest<Endpoint>) -> Exchange {
    Exchange {
        message: request.message@,
        response: match request.response {
            Some(response) => Some(response.message@),
            None => None,
        },
    }
}

/// A result with its error as plain values.
pub open spec fn result_view(r: Result<bool, HandlingError>) -> Result<bool, HandlingFault> {
    match r {
        Ok(handled) => Ok(handled),
        Err(e) => Err(e@),
    }
}

/// The block value that an option value spells.
pub open spec fn decoded_block(value: Seq<u8>) -> BlockValue {
    BlockValue {
        num: (be_value(value) / 16) as u16,
        more: (be_value(value) / 8) % 2 == 1,
        size_exponent: (be_value(value) % 8) as u8,
    }
}

/// The block value in the first value of an option, where there is one and
/// it spells a block value.
pub open spec fn block_option(entries: Seq<(u16, Seq<Seq<u8>>)>, number: u16) -> Option<
    BlockValue,
> {
    match first_value(entries, number) {
        Some(value) => if BlockValue::decodes(value) {
            Some(decoded_block(value))
        } else {
            None
        },
        None => None,
    }
}

/// The size in bytes of the blocks of a block value.
pub open spec fn block_size(block: BlockValue) -> int {
    pow2(block.size_exponent as nat + 4) as int
}

/// The largest block size that is not above `size`: a power of two from 16
/// to 1024, and 16 for a size below that.
pub open spec fn rounded_size(size: int) -> int {
    pow2(size_exponent_for(size) as nat + 4) as int
}

/// The block value for block `num` of blocks of the largest size not above
/// `size`, or the internal fault where the number does not fit its sixteen
/// bits.
pub open spec fn rounded_block(num: int, more: bool, size: int) -> Result<
    BlockValue,
    HandlingFault,
> {
    if num > 0xFFFF {
        Err(internal_fault(type_bounds_text()))
    } else {
        Ok(BlockValue { num: num as u16, more, size_exponent: size_exponent_for(size) })
    }
}

/// The description of a message whose parts other than the payload exceed
/// the total message size.
pub open spec fn too_large_text(max_total_message_size: int, max_non_payload_size: int) -> Seq<
    char,
> {
    "Message too large to encode at any block size: "@ + decimal_text(
        max_total_message_size as nat,
    ) + " exceeds "@ + decimal_text(max_non_payload_size as nat)
}

/// The smaller of two numbers.
pub open spec fn smaller(a: int, b: int) -> int {
    if a <= b {
        a
    } else {
        b
    }
}

/// What the total message size leaves for a payload, or the internal fault
/// where the other parts of the message alone exceed it.
pub open spec fn room_for_payload(non_payload_size: int, max_total_message_size: int) -> Result<
    int,
    HandlingFault,
> {
    if max_total_message_size < non_payload_size {
        Err(internal_fault(too_large_text(max_total_message_size, non_payload_size)))
    } else {
        Ok(max_total_message_size - non_payload_size)
    }
}

/// The block value to send a response with, if any: none where the payload
/// fits and the peer asked for no blocks. Else the blocks have the size the
/// peer asked for, but not above what the total message size leaves for a
/// payload, rounded down to a block size; the block is the one that holds
/// the byte at which the block asked for starts. With less than 16 bytes
/// left for a payload no block can be sent.
pub open spec fn negotiation(
    request_block: Option<BlockValue>,
    non_payload_size: int,
    total_payload_size: int,
    max_total_message_size: int,
) -> Result<Option<BlockValue>, HandlingFault> {
    match room_for_payload(non_payload_size, max_total_message_size) {
        Err(fault) => Err(fault),
        Ok(max_block_size) => if request_block is None && total_payload_size <= max_block_size {
            Ok(None)
        } else if max_block_size < 16 {
            Err(internal_fault(size_exponent_text(max_block_size as usize)))
        } else {
            let wanted = match request_block {
                Some(request_block) => smaller(block_size(request_block), max_block_size),
                None => max_block_size,
            };
            let reply_start_offset = match request_block {
                Some(request_block) => request_block.num * block_size(request_block),
                None => 0,
            };
            match rounded_block(
                reply_start_offset / rounded_size(wanted),
                reply_start_offset + rounded_size(wanted) < total_payload_size,
                wanted,
            ) {
                Ok(block) => Ok(Some(block)),
                Err(fault) => Err(fault),
            }
        },
    }
}

/// The block value that tells a peer to send its payload in blocks, if it
/// has to: none where the payload fits. Else the first block, with more to
/// come, at the largest block size that the total message size leaves room
/// for, and at 16 bytes, the smallest there is, where it leaves less.
pub open spec fn advertisement(
    non_payload_size: int,
    total_payload_size: int,
    max_total_message_size: int,
) -> Result<Option<BlockValue>, HandlingFault> {
    match room_for_payload(non_payload_size, max_total_message_size) {
        Err(fault) => Err(fault),
        Ok(max_block_size) => if total_payload_size <= max_block_size {
            Ok(None)
        } else if max_block_size == 0 {
            Err(internal_fault(size_exponent_text(0)))
        } else {
            Ok(
                Some(
                    BlockValue {
                        num: 0,
                        more: true,
                        size_exponent: size_exponent_for(max_block_size),
                    },
                ),
            )
        },
    }
}

/// `dst` with the range from `start` to `end` replaced by `replace_with`,
/// after `dst` was filled up with `fill` to reach `end`.
pub open spec fn spliced<T>(dst: Seq<T>, start: int, end: int, replace_with: Seq<T>, fill: T) -> Seq<
    T,
> {
    let extended = if end > dst.len() {
        dst + Seq::new((end - dst.len()) as nat, |i: int| fill)
    } else {
        dst
    };
    extended.subrange(0, start) + replace_with + extended.subrange(end, extended.len() as int)
}

/// The description of a splice that would extend a vector too far.
pub open spec fn splice_text(extend_len: int, maximum_reserve_len: int) -> Seq<char> {
    "extend_len="@ + decimal_text(extend_len as nat) + ", maximum_extend_len="@ + decimal_text(
        maximum_reserve_len as nat,
    )
}

/// Similar to [`Vec::splice`] except that the Vec's length may be extended to
/// support the splice, but only up to an increase of `maximum_reserve_len`
/// (for security reasons if the data you're receiving is untrusted ensure this
/// is reasonably limited to avoid memory pressure denial of service attacks).
pub fn extending_splice<T: Default + Copy>(
    dst: &mut Vec<T>,
    start: usize,
    end: usize,
    replace_with: &[T],
    maximum_reserve_len: usize,
) -> (r: Result<(), String>)
    requires
        start <= end,
    ensures
        r is Err <==> end - old(dst)@.len() > maximum_reserve_len,
        r matches Err(message) ==> final(dst)@ == old(dst)@ && message@ == splice_text(
            end - old(dst)@.len(),
            maximum_reserve_len as int,
        ),
        r is Ok ==> exists|fill: T| #[trigger]
            call_ensures(T::default, (), fill) && final(dst)@ == spliced(
                old(dst)@,
                start as int,
                end as int,
                replace_with@,
                fill,
            ),
{
    let fill = T::default();
    if end > dst.len() {
        let extend_len = end - dst.len();
        if extend_len > maximum_reserve_len {
            let mut message = "extend_len=".to_owned();
            message.append(decimal_string(extend_len as u128).as_str());
            message.append(", maximum_extend_len=");
            message.append(decimal_string(maximum_reserve_len as u128).as_str());
            return Err(message);
        }
        let mut added: usize = 0;
        while added < extend_len
            invariant
                added <= extend_len,
                extend_len == end - old(dst)@.len(),
                end > old(dst)@.len(),
                dst@ == old(dst)@ + Seq::new(added as nat, |i: int| fill),
            decreases extend_len - added,
        {
            dst.push(fill);
            assert(dst@ =~= old(dst)@ + Seq::new((added + 1) as nat, |i: int| fill));
            added = added + 1;
        }
    }
    let ghost extended = dst@;
    let mut tail = dst.split_off(end);
    dst.truncate(start);
    let mut k: usize = 0;
    while k < replace_with.len()
        invariant
            k <= replace_with@.len(),
            dst@ == extended.subrange(0, start as int) + replace_with@.subrange(0, k as int),
        decreases replace_with@.len() - k,
    {
        dst.push(replace_with[k]);
        assert(dst@ =~= extended.subrange(0, start as int) + replace_with@.subrange(0, k + 1));
        k = k + 1;
    }
    assert(replace_with@.subrange(0, k as int) =~= replace_with@);
    dst.append(&mut tail);
    assert(dst@ =~= spliced(old(dst)@, start as int, end as int, replace_with@, fill));
    Ok(())
}

/// `entries` with the values of each option of `source` set in turn.
pub open spec fn with_all_set(
    entries: Seq<(u16, Seq<Seq<u8>>)>,
    source: Seq<(u16, Seq<Seq<u8>>)>,
) -> Seq<(u16, Seq<Seq<u8>>)>
    decreases source.len(),
{
    if source.len() == 0 {
        entries
    } else {
        with_set(with_all_set(entries, source.drop_last()), source.last().0, source.last().1)
    }
}

/// `dst` made like `src` but for message id and payload: version, type, code
/// and token of `src`, and each option of `src` with its values.
pub open spec fn clone_limited(dst: PacketView, src: PacketView) -> PacketView {
    let typed = dst.header.with_version(src.header.version()).with_type(src.header.message_type());
    PacketView {
        header: Header { code: src.header.code, ..typed }.with_token_length(src.token.len() as u8),
        token: src.token,
        options: with_all_set(dst.options, src.options),
        payload: dst.payload,
    }
}

/// The description of a block that lies outside the cached payload.
pub open spec fn chunk_text(num: int, size: int) -> Seq<char> {
    "num="@ + decimal_text(num as nat) + ", block_size="@ + decimal_text(size as nat)
}

/// The response that serves block `request_block2` of the cached response:
/// whether more blocks follow, and the response as it is left.
pub open spec fn served(response: PacketView, request_block2: BlockValue, cached: PacketView) -> (
    Result<bool, HandlingFault>,
    PacketView,
) {
    let copied = clone_limited(response, cached);
    let size = block_size(request_block2);
    let start = request_block2.num * size;
    if start >= cached.payload.len() {
        (Err(bad_request_fault(chunk_text(request_block2.num as int, size))), copied)
    } else {
        let has_more = start + size < cached.payload.len();
        let response_block2 = BlockValue { more: has_more, ..request_block2 };
        (
            Ok(has_more),
            PacketView {
                payload: cached.payload.subrange(
                    start,
                    smaller(start + size, cached.payload.len() as int),
                ),
                options: with_set(
                    copied.options,
                    option_number(CoapOption::Block2),
                    seq![response_block2.encoding()],
                ),
                ..copied
            },
        )
    }
}

/// How an exchange is served from the cached response.
pub open spec fn serve_step(x: Exchange, request_block2: BlockValue, cached: PacketView) -> (
    Result<bool, HandlingFault>,
    Exchange,
) {
    match x.response {
        None => (Err(not_handled_fault()), x),
        Some(response) => {
            let (result, after) = served(response, request_block2, cached);
            (result, Exchange { response: Some(after), ..x })
        },
    }
}

/// `response` with a block value added to its Block1 option.
pub open spec fn with_block1(response: PacketView, block: BlockValue) -> PacketView {
    PacketView {
        options: with_added(response.options, option_number(CoapOption::Block1), block.encoding()),
        ..response
    }
}

/// `response` with the given response code.
pub open spec fn with_code(response: PacketView, code: ResponseType) -> PacketView {
    PacketView { header: Header { code: MessageClass::Response(code), ..response.header }, ..response }
}

/// What becomes of an inbound request with regard to Block1. A block of a
/// payload in parts is put into the cached payload at its offset, and the
/// Block1 of the request is echoed on the response: with 2.31 Continue while
/// more are to come, else the request is handed on with the whole payload.
/// A payload without Block1 that is too large for one message is answered
/// with 4.13 and the block size to use.
pub open spec fn request_block1_step(x: Exchange, max_total_message_size: usize, state: BlockStateView) -> Step {
    let non_payload_size = size_without_payload(x.message) + BLOCK_OPTIONS_MAX_LENGTH;
    match block_option(x.message.options, option_number(CoapOption::Block1)) {
        None => match advertisement(
            non_payload_size,
            x.message.payload.len() as int,
            max_total_message_size as int,
        ) {
            Err(fault) => Step { result: Err(fault), exchange: x, state },
            Ok(None) => Step { result: Ok(false), exchange: x, state },
            Ok(Some(response_block1)) => match x.response {
                None => Step { result: Err(not_handled_fault()), exchange: x, state },
                Some(response) => Step {
                    result: Ok(true),
                    exchange: Exchange {
                        response: Some(
                            with_code(
                                with_block1(response, response_block1),
                                ResponseType::RequestEntityTooLarge,
                            ),
                        ),
                        ..x
                    },
                    state,
                },
            },
        },
        Some(request_block1) => match room_for_payload(
            non_payload_size,
            max_total_message_size as int,
        ) {
            Err(fault) => Step { result: Err(fault), exchange: x, state },
            Ok(_) => {
                let cached = match state.cached_request_payload {
                    Some(payload) => payload,
                    None => Seq::empty(),
                };
                let offset = request_block1.num * block_size(request_block1);
                let end = offset + block_size(request_block1);
                if end - cached.len() > MAXIMUM_UNCOMMITTED_BUFFER_RESERVE_LENGTH {
                    Step {
                        result: Err(
                            internal_fault(
                                splice_text(
                                    end - cached.len(),
                                    MAXIMUM_UNCOMMITTED_BUFFER_RESERVE_LENGTH as int,
                                ),
                            ),
                        ),
                        exchange: x,
                        state: BlockStateView { cached_request_payload: Some(cached), ..state },
                    }
                } else {
                    let assembled = spliced(cached, offset, end, x.message.payload, 0u8);
                    if request_block1.more {
                        let state = BlockStateView {
                            cached_request_payload: Some(assembled),
                            ..state
                        };
                        match x.response {
                            None => Step { result: Err(not_handled_fault()), exchange: x, state },
                            Some(response) => Step {
                                result: Ok(true),
                                exchange: Exchange {
                                    response: Some(
                                        with_code(
                                            with_block1(response, request_block1),
                                            ResponseType::Continue,
                                        ),
                                    ),
                                    ..x
                                },
                                state,
                            },
                        }
                    } else {
                        let state = BlockStateView { cached_request_payload: None, ..state };
                        let message = PacketView { payload: assembled, ..x.message };
                        match x.response {
                            None => Step {
                                result: Err(not_handled_fault()),
                                exchange: Exchange { message, ..x },
                                state,
                            },
                            Some(response) => Step {
                                result: Ok(false),
                                exchange: Exchange {
                                    message,
                                    response: Some(with_block1(response, request_block1)),
                                },
                                state,
                            },
                        }
                    }
                }
            },
        },
    }
}

/// What becomes of an inbound request with regard to Block2: the block
/// value it asks for is remembered, and where a response is cached the
/// block asked for is served from it; the cache is dropped with the last.
pub open spec fn request_block2_step(x: Exchange, state: BlockStateView) -> Step {
    let maybe_block2 = block_option(x.message.options, option_number(CoapOption::Block2));
    let state = BlockStateView { last_request_block2: maybe_block2, ..state };
    match (maybe_block2, state.cached_response) {
        (Some(block2), Some(cached)) => {
            let (result, exchange) = serve_step(x, block2, cached);
            match result {
                Err(fault) => Step { result: Err(fault), exchange, state },
                Ok(has_more_chunks) => Step {
                    result: Ok(true),
                    exchange,
                    state: if has_more_chunks {
                        state
                    } else {
                        BlockStateView { cached_response: None, ..state }
                    },
                },
            }
        },
        _ => Step { result: Ok(false), exchange: x, state },
    }
}

/// What the interception of an inbound request does, from the state kept
/// for it.
pub open spec fn request_step(x: Exchange, max_total_message_size: usize, state: BlockStateView) -> Step {
    let block1 = request_block1_step(x, max_total_message_size, state);
    if block1.result == Ok::<bool, HandlingFault>(false) {
        request_block2_step(block1.exchange, block1.state)
    } else {
        block1
    }
}

/// What the interception of an outbound response does, from the state kept
/// for its request: a response that carries a Block2 of its own is left
/// alone, and so is one that fits where the peer asked for no blocks; else
/// its first block is served and, where more follow, the whole is cached.
pub open spec fn response_step(x: Exchange, max_total_message_size: usize, state: BlockStateView) -> Step {
    match x.response {
        None => Step { result: Ok(false), exchange: x, state },
        Some(response) => if lookup(response.options, option_number(CoapOption::Block2)) is Some {
            Step { result: Ok(false), exchange: x, state }
        } else {
            match negotiation(
                state.last_request_block2,
                size_without_payload(response) + BLOCK_OPTIONS_MAX_LENGTH,
                response.payload.len() as int,
                max_total_message_size as int,
            ) {
                Err(fault) => Step { result: Err(fault), exchange: x, state },
                Ok(None) => Step { result: Ok(false), exchange: x, state },
                Ok(Some(request_block2)) => {
                    let (result, exchange) = serve_step(x, request_block2, response);
                    match result {
                        Err(fault) => Step { result: Err(fault), exchange, state },
                        Ok(has_more_chunks) => Step {
                            result: Ok(has_more_chunks),
                            exchange,
                            state: if has_more_chunks {
                                BlockStateView { cached_response: Some(response), ..state }
                            } else {
                                state
                            },
                        },
                    }
                },
            }
        },
    }
}

/// The offset at which the block of a block value starts.
fn block_offset(block: &BlockValue) -> (offset: usize)
    requires
        block.size_exponent <= 7,
    ensures
        offset == block.num * block_size(*block),
        offset <= 0xFFFF * 2048,
{
    let size = block.size();
    assert(block.num * size <= 0xFFFF * 2048) by (nonlinear_arith)
        requires
            block.num <= 0xFFFF,
            0 <= size <= 2048,
    ;
    block.num as usize * size
}

/// The payload that is put together for an inbound request.
pub open spec fn assembling(state: BlockStateView) -> Seq<u8> {
    match state.cached_request_payload {
        Some(payload) => payload,
        None => Seq::empty(),
    }
}

/// A peer cannot make the payload that is put together grow at will: a
/// block that ends more than the reserve behind what is held is refused
/// with an internal error, and what is held stays as it is.
pub proof fn lemma_reassembly_refuses_far_jumps(
    x: Exchange,
    max_total_message_size: usize,
    state: BlockStateView,
)
    requires
        block_option(x.message.options, option_number(CoapOption::Block1)) matches Some(block)
            && (block.num + 1) * block_size(block) - assembling(state).len()
            > MAXIMUM_UNCOMMITTED_BUFFER_RESERVE_LENGTH,
    ensures
        request_block1_step(x, max_total_message_size, state).result is Err,
        request_step(x, max_total_message_size, state).result is Err,
        assembling(request_step(x, max_total_message_size, state).state) == assembling(state),
        request_step(x, max_total_message_size, state).exchange == x,
{
    let block = block_option(x.message.options, option_number(CoapOption::Block1))->0;
    assert((block.num + 1) * block_size(block) == block.num * block_size(block) + block_size(
        block,
    )) by (nonlinear_arith);
}

/// What is held of an inbound payload never grows by more than the reserve
/// and the payload of the request in one step.
pub proof fn lemma_reassembly_grows_within_the_reserve(
    x: Exchange,
    max_total_message_size: usize,
    state: BlockStateView,
)
    ensures
        assembling(request_step(x, max_total_message_size, state).state).len() <= assembling(
            state,
        ).len() + MAXIMUM_UNCOMMITTED_BUFFER_RESERVE_LENGTH + x.message.payload.len(),
{
}

/// A block that is served from the cached response carries the message id
/// that the response had before, not that of the cached response.
pub proof fn lemma_served_keeps_the_message_id(
    response: PacketView,
    request_block2: BlockValue,
    cached: PacketView,
)
    ensures
        served(response, request_block2, cached).1.header.message_id == response.header.message_id,
        served(response, request_block2, cached).1.token == cached.token,
{
}

/// The Block1 of an inbound request is echoed on the response: with 2.31
/// Continue and the request held back while more blocks are to come, else
/// with the request handed on.
pub proof fn lemma_block1_is_echoed(
    x: Exchange,
    max_total_message_size: usize,
    state: BlockStateView,
)
    requires
        block_option(x.message.options, option_number(CoapOption::Block1)) is Some,
        request_block1_step(x, max_total_message_size, state).result is Ok,
    ensures
        ({
            let block = block_option(x.message.options, option_number(CoapOption::Block1))->0;
            let step = request_block1_step(x, max_total_message_size, state);
            &&& x.response is Some
            &&& step.result == Ok::<bool, HandlingFault>(block.more)
            &&& step.exchange.response == Some(
                if block.more {
                    with_code(with_block1(x.response->0, block), ResponseType::Continue)
                } else {
                    with_block1(x.response->0, block)
                },
            )
        }),
{
}

/// The payloads of the requests, one behind the other.
pub open spec fn payloads(requests: Seq<Exchange>) -> Seq<u8>
    decreases requests.len(),
{
    if requests.len() == 0 {
        Seq::empty()
    } else {
        payloads(requests.drop_last()) + requests.last().message.payload
    }
}

/// The state that is left when the requests have been handled one after the
/// other, each from the state that the one before left.
pub open spec fn state_after(
    requests: Seq<Exchange>,
    max_total_message_size: usize,
    state: BlockStateView,
) -> BlockStateView
    decreases requests.len(),
{
    if requests.len() == 0 {
        state
    } else {
        request_step(
            requests.last(),
            max_total_message_size,
            state_after(requests.drop_last(), max_total_message_size, state),
        ).state
    }
}

/// Whether the requests bring one payload in blocks of one size, from the
/// first block to the last in their order: each with a response to answer
/// on, each full but for the last, and none too large a message.
pub open spec fn blocks_in_sequence(
    requests: Seq<Exchange>,
    size_exponent: u8,
    max_total_message_size: usize,
) -> bool {
    &&& size_exponent <= 7
    &&& 0 < requests.len() <= 0x10000
    &&& forall|i: int|
        0 <= i < requests.len() ==> {
            &&& block_option(
                (#[trigger] requests[i]).message.options,
                option_number(CoapOption::Block1),
            ) == Some(BlockValue { num: i as u16, more: i + 1 < requests.len(), size_exponent })
            &&& requests[i].response is Some
            &&& room_for_payload(
                size_without_payload(requests[i].message) + BLOCK_OPTIONS_MAX_LENGTH,
                max_total_message_size as int,
            ) is Ok
            &&& requests[i].message.payload.len() <= pow2(size_exponent as nat + 4)
            &&& i + 1 < requests.len() ==> requests[i].message.payload.len() == pow2(
                size_exponent as nat + 4,
            )
        }
}

/// A block that comes right behind what is held of a payload is appended
/// to it: while more are to come it is held with the rest and answered with
/// 2.31 Continue; with the last the request is handed on with all that was
/// held and its own payload behind it.
pub proof fn lemma_next_block_is_appended(
    x: Exchange,
    max_total_message_size: usize,
    state: BlockStateView,
)
    requires
        x.response is Some,
        room_for_payload(
            size_without_payload(x.message) + BLOCK_OPTIONS_MAX_LENGTH,
            max_total_message_size as int,
        ) is Ok,
        block_option(x.message.options, option_number(CoapOption::Block1)) is Some,
        block_option(x.message.options, option_number(CoapOption::Block1))->0.size_exponent <= 7,
        assembling(state).len() == block_option(
            x.message.options,
            option_number(CoapOption::Block1),
        )->0.num * block_size(
            block_option(x.message.options, option_number(CoapOption::Block1))->0,
        ),
        x.message.payload.len() <= block_size(
            block_option(x.message.options, option_number(CoapOption::Block1))->0,
        ),
    ensures
        ({
            let block = block_option(x.message.options, option_number(CoapOption::Block1))->0;
            let step = request_block1_step(x, max_total_message_size, state);
            &&& step.result == Ok::<bool, HandlingFault>(block.more)
            &&& block.more ==> {
                &&& request_step(x, max_total_message_size, state) == step
                &&& assembling(step.state) == assembling(state) + x.message.payload
            }
            &&& !block.more ==> {
                &&& step.exchange.message.payload == assembling(state) + x.message.payload
                &&& step.state.cached_request_payload is None
            }
        }),
{
    let block = block_option(x.message.options, option_number(CoapOption::Block1))->0;
    let size = block_size(block);
    let cached = assembling(state);
    let offset = block.num * size;
    reveal_with_fuel(pow2, 12);
    assert(16 <= size <= 2048);
    assert(cached.len() == offset);
    assert(spliced(cached, offset, offset + size, x.message.payload, 0u8) =~= cached
        + x.message.payload);
}

proof fn lemma_blocks_are_held(
    requests: Seq<Exchange>,
    size_exponent: u8,
    max_total_message_size: usize,
    state: BlockStateView,
    k: int,
)
    requires
        blocks_in_sequence(requests, size_exponent, max_total_message_size),
        assembling(state).len() == 0,
        0 <= k < requests.len(),
    ensures
        assembling(state_after(requests.take(k), max_total_message_size, state)) == payloads(
            requests.take(k),
        ),
        payloads(requests.take(k)).len() == k * pow2(size_exponent as nat + 4),
        k > 0 ==> request_step(
            requests[k - 1],
            max_total_message_size,
            state_after(requests.take(k - 1), max_total_message_size, state),
        ).result == Ok::<bool, HandlingFault>(true),
    decreases k,
{
    let size = pow2(size_exponent as nat + 4) as int;
    if k == 0 {
        assert(requests.take(0) =~= Seq::<Exchange>::empty());
        assert(assembling(state) =~= Seq::<u8>::empty());
    } else {
        lemma_blocks_are_held(requests, size_exponent, max_total_message_size, state, k - 1);
        let held = requests.take(k);
        assert(held.drop_last() =~= requests.take(k - 1));
        assert(held.last() == requests[k - 1]);
        let before = state_after(requests.take(k - 1), max_total_message_size, state);
        let x = requests[k - 1];
        let block = BlockValue { num: (k - 1) as u16, more: true, size_exponent };
        assert(block_option(x.message.options, option_number(CoapOption::Block1)) == Some(block));
        assert(block_size(block) == size);
        assert((k - 1) * size + size == k * size) by (nonlinear_arith);
        assert(block.num * size == (k - 1) * size);
        lemma_next_block_is_appended(x, max_total_message_size, before);
        assert(state_after(held, max_total_message_size, state) == request_step(
            x,
            max_total_message_size,
            before,
        ).state);
    }
}

/// A payload that comes in blocks, from the first to the last in their
/// order and from a state that holds nothing of it, is put together whole:
/// every block but the last is answered with 2.31 Continue and held, and
/// with the last the request is handed on with all the payloads, one behind
/// the other, and nothing is held any more.
pub proof fn lemma_blocks_in_sequence_are_reassembled(
    requests: Seq<Exchange>,
    size_exponent: u8,
    max_total_message_size: usize,
    state: BlockStateView,
)
    requires
        blocks_in_sequence(requests, size_exponent, max_total_message_size),
        assembling(state).len() == 0,
    ensures
        forall|i: int|
            0 <= i < requests.len() - 1 ==> #[trigger] request_step(
                requests[i],
                max_total_message_size,
                state_after(requests.take(i), max_total_message_size, state),
            ).result == Ok::<bool, HandlingFault>(true),
        ({
            let last = request_block1_step(
                requests.last(),
                max_total_message_size,
                state_after(requests.drop_last(), max_total_message_size, state),
            );
            &&& last.result == Ok::<bool, HandlingFault>(false)
            &&& last.exchange.message.payload == payloads(requests)
            &&& last.state.cached_request_payload is None
        }),
{
    let size = pow2(size_exponent as nat + 4) as int;
    let n = requests.len() as int;
    assert forall|i: int| 0 <= i < n - 1 implies #[trigger] request_step(
        requests[i],
        max_total_message_size,
        state_after(requests.take(i), max_total_message_size, state),
    ).result == Ok::<bool, HandlingFault>(true) by {
        lemma_blocks_are_held(requests, size_exponent, max_total_message_size, state, i + 1);
    }
    lemma_blocks_are_held(requests, size_exponent, max_total_message_size, state, n - 1);
    assert(requests.take(n - 1) =~= requests.drop_last());
    let before = state_after(requests.drop_last(), max_total_message_size, state);
    let x = requests.last();
    assert(x == requests[n - 1]);
    let block = BlockValue { num: (n - 1) as u16, more: false, size_exponent };
    assert(block_option(x.message.options, option_number(CoapOption::Block1)) == Some(block));
    assert(block_size(block) == size);
    assert(block.num * size == (n - 1) * size);
    lemma_next_block_is_appended(x, max_total_message_size, before);
}

/// Block `num` of a payload in blocks of `size` bytes: what stands from
/// byte `num * size` on, up to `size` bytes of it.
pub open spec fn block_of(payload: Seq<u8>, num: int, size: int) -> Seq<u8> {
    payload.subrange(num * size, smaller(num * size + size, payload.len() as int))
}

/// The first `count` blocks of a payload, one behind the other.
pub open spec fn blocks_up_to(payload: Seq<u8>, count: int, size: int) -> Seq<u8>
    decreases count,
{
    if count <= 0 {
        Seq::empty()
    } else {
        blocks_up_to(payload, count - 1, size) + block_of(payload, count - 1, size)
    }
}

/// The blocks of a payload, one behind the other, are that payload: the
/// first `count` of them are its bytes up to the end of the last of them.
pub proof fn lemma_blocks_cover_the_payload(payload: Seq<u8>, count: int, size: int)
    requires
        size > 0,
        0 <= count,
        count > 0 ==> (count - 1) * size < payload.len(),
    ensures
        blocks_up_to(payload, count, size) == payload.subrange(
            0,
            smaller(count * size, payload.len() as int),
        ),
    decreases count,
{
    if count == 0 {
        assert(payload.subrange(0, 0) =~= Seq::<u8>::empty());
    } else {
        assert((count - 1) * size + size == count * size) by (nonlinear_arith);
        if count > 1 {
            assert((count - 2) * size + size == (count - 1) * size) by (nonlinear_arith);
        }
        lemma_blocks_cover_the_payload(payload, count - 1, size);
        assert(blocks_up_to(payload, count, size) =~= payload.subrange(
            0,
            smaller(count * size, payload.len() as int),
        ));
    }
}

/// A request for a block of the cached response is served that block, with
/// the token of the cached response and the message id that the response
/// had; the cached response is kept while blocks follow and dropped with
/// the last.
pub proof fn lemma_cached_block_is_served(x: Exchange, state: BlockStateView)
    requires
        x.response is Some,
        state.cached_response is Some,
        block_option(x.message.options, option_number(CoapOption::Block2)) matches Some(block)
            && block.num * block_size(block) < state.cached_response->0.payload.len(),
    ensures
        ({
            let block = block_option(x.message.options, option_number(CoapOption::Block2))->0;
            let cached = state.cached_response->0;
            let more = block.num * block_size(block) + block_size(block) < cached.payload.len();
            let step = request_block2_step(x, state);
            &&& step.result == Ok::<bool, HandlingFault>(true)
            &&& step.exchange.message == x.message
            &&& step.exchange.response is Some
            &&& step.exchange.response->0.payload == block_of(
                cached.payload,
                block.num as int,
                block_size(block),
            )
            &&& step.exchange.response->0.token == cached.token
            &&& step.exchange.response->0.header.code == cached.header.code
            &&& step.exchange.response->0.header.message_id == x.response->0.header.message_id
            &&& step.state.last_request_block2 == Some(block)
            &&& step.state.cached_response == if more {
                Some(cached)
            } else {
                None
            }
        }),
{
}

/// A response that is too large for one message is cached whole and its
/// first block is sent in its place, where the peer asked for no blocks and
/// at least 16 bytes are left for a payload.
pub proof fn lemma_large_response_is_sent_in_blocks(
    x: Exchange,
    max_total_message_size: usize,
    state: BlockStateView,
)
    requires
        state.last_request_block2 is None,
        x.response is Some,
        lookup(x.response->0.options, option_number(CoapOption::Block2)) is None,
        room_for_payload(
            size_without_payload(x.response->0) + BLOCK_OPTIONS_MAX_LENGTH,
            max_total_message_size as int,
        ) is Ok,
        16 <= room_for_payload(
            size_without_payload(x.response->0) + BLOCK_OPTIONS_MAX_LENGTH,
            max_total_message_size as int,
        )->Ok_0 < x.response->0.payload.len(),
    ensures
        ({
            let response = x.response->0;
            let room = room_for_payload(
                size_without_payload(response) + BLOCK_OPTIONS_MAX_LENGTH,
                max_total_message_size as int,
            )->Ok_0;
            let step = response_step(x, max_total_message_size, state);
            &&& step.result == Ok::<bool, HandlingFault>(true)
            &&& step.exchange.response is Some
            &&& step.exchange.response->0.payload == block_of(
                response.payload,
                0,
                rounded_size(room),
            )
            &&& 16 <= rounded_size(room) <= room
            &&& step.state.cached_response == Some(response)
        }),
{
    reveal_with_fuel(pow2, 12);
    let response = x.response->0;
    let room = room_for_payload(
        size_without_payload(response) + BLOCK_OPTIONS_MAX_LENGTH,
        max_total_message_size as int,
    )->Ok_0;
    let size = rounded_size(room);
    assert(16 <= size <= room);
    assert(0int / size == 0);
    let block = BlockValue { num: 0, more: true, size_exponent: size_exponent_for(room) };
    assert(negotiation(
        None,
        size_without_payload(response) + BLOCK_OPTIONS_MAX_LENGTH,
        response.payload.len() as int,
        max_total_message_size as int,
    ) == Ok::<Option<BlockValue>, HandlingFault>(Some(block)));
    assert(block_size(block) == size);
    assert(block.num * block_size(block) == 0) by (nonlinear_arith)
        requires
            block.num == 0,
    ;
    assert(0 * size == 0) by (nonlinear_arith);
}

/// Implements block transfer by intercepting and caching requests and
/// responses.
#[verifier::reject_recursive_types(Endpoint)]
pub struct BlockHandler<Endpoint: Ord + Clone> {
    config: BlockHandlerConfig,
    /// Maintains a block1 and 2 cache for requests that we expect a client to
    /// soon follow-up and ask about.  If this recency requirement is not
    /// meant, the system will still work however consistency of results will
    /// suffer.
    states: LruCache<RequestCacheKey<Endpoint>, BlockState>,
}

impl<Endpoint: Ord + Clone> BlockHandler<Endpoint> {
    /// The configuration that the handler was made with.
    pub closed spec fn config(self) -> BlockHandlerConfig {
        self.config
    }

    /// Creates a new block handler which is expected to be re-used across all
    /// subsequent request/response pairs that may benefit from block handling.
    pub fn new(config: BlockHandlerConfig) -> (handler: Self)
        requires
            config.cache_expiry_duration.seconds <= MAXIMUM_CACHE_EXPIRY_SECONDS,
        ensures
            handler.config() == config,
    {
        Self {
            states: new_cache(
                config.cache_expiry_duration.seconds,
                config.cache_expiry_duration.nanoseconds,
            ),
            config,
        }
    }

    /// Creates a new block handler where the expiry of the configuration is
    /// one that the cache can keep, none where it is longer.
    pub fn try_new(config: BlockHandlerConfig) -> (r: Option<Self>)
        ensures
            r is Some <==> config.cache_expiry_duration.seconds <= MAXIMUM_CACHE_EXPIRY_SECONDS,
            r matches Some(handler) ==> handler.config() == config,
    {
        if config.cache_expiry_duration.seconds <= MAXIMUM_CACHE_EXPIRY_SECONDS {
            Some(Self::new(config))
        } else {
            None
        }
    }

    /// Intercepts request before application processing has occurred.
    ///
    /// Returns true if the request requires Block1/2 handling and no further
    /// processing should occur (the response will be mutated inside the
    /// request and should be sent to the peer); false otherwise and handling
    /// should proceed to the application normally.
    ///
    /// The state that the cache keeps for the request decides; whatever it
    /// is, the request is handled as [`request_step`] says from it.
    pub fn intercept_request(&mut self, request: &mut CoapRequest<Endpoint>) -> (r: Result<
        bool,
        HandlingError,
    >)
        ensures
            final(self).config() == old(self).config(),
            final(request).source == old(request).source,
            exists|before: BlockStateView| #[trigger]
                state_ok(before) && {
                    let step = request_step(
                        exchange_of(*old(request)),
                        old(self).config().max_total_message_size,
                        before,
                    );
                    &&& result_view(r) == step.result
                    &&& exchange_of(*final(request)) == step.exchange
                },
    {
        let key = RequestCacheKey::from(request);
        let max_total_message_size = self.config.max_total_message_size;
        let state = state_entry(&mut self.states, key, BlockState::default());
        let ghost before = state@;
        proof {
            use_type_invariant(&*state);
        }
        let r = Self::handle_request(request, max_total_message_size, state);
        assert(state_ok(before));
        r
    }

    /// Handles an inbound request from the state kept for it.
    pub fn handle_request(
        request: &mut CoapRequest<Endpoint>,
        max_total_message_size: usize,
        state: &mut BlockState,
    ) -> (r: Result<bool, HandlingError>)
        ensures
            final(request).source == old(request).source,
            result_view(r) == request_step(
                exchange_of(*old(request)),
                max_total_message_size,
                old(state)@,
            ).result,
            exchange_of(*final(request)) == request_step(
                exchange_of(*old(request)),
                max_total_message_size,
                old(state)@,
            ).exchange,
            final(state)@ == request_step(
                exchange_of(*old(request)),
                max_total_message_size,
                old(state)@,
            ).state,
    {
        let block1_handled = match Self::maybe_handle_request_block1(
            request,
            max_total_message_size,
            state,
        ) {
            Ok(handled) => handled,
            Err(e) => {
                return Err(e);
            },
        };
        if block1_handled {
            return Ok(true);
        }
        let block2_handled = match Self::maybe_handle_request_block2(request, state) {
            Ok(handled) => handled,
            Err(e) => {
                return Err(e);
            },
        };
        if block2_handled {
            return Ok(true);
        }
        Ok(false)
    }

    /// The Block1 part of handling an inbound request.
    pub fn maybe_handle_request_block1(
        request: &mut CoapRequest<Endpoint>,
        max_total_message_size: usize,
        state: &mut BlockState,
    ) -> (r: Result<bool, HandlingError>)
        ensures
            final(request).source == old(request).source,
            result_view(r) == request_block1_step(
                exchange_of(*old(request)),
                max_total_message_size,
                old(state)@,
            ).result,
            exchange_of(*final(request)) == request_block1_step(
                exchange_of(*old(request)),
                max_total_message_size,
                old(state)@,
            ).exchange,
            final(state)@ == request_block1_step(
                exchange_of(*old(request)),
                max_total_message_size,
                old(state)@,
            ).state,
    {
        proof {
            use_type_invariant(&*state);
        }
        let ghost x = exchange_of(*request);
        let request_block1 = match request.message.get_first_option_as::<BlockValue>(
            CoapOption::Block1,
        ) {
            Some(Ok(block)) => Some(block),
            _ => None,
        };
        assert(request_block1 == block_option(
            x.message.options,
            option_number(CoapOption::Block1),
        ));
        let message_size = Self::compute_message_size_hack(&request.message);
        let total_payload_size = request.message.payload.len();

        match request_block1 {
            Some(request_block1) => {
                match Self::room_for_payload(
                    message_size,
                    total_payload_size,
                    max_total_message_size,
                ) {
                    Ok(_) => {},
                    Err(e) => {
                        return Err(e);
                    },
                }
                let mut slot: Option<Vec<u8>> = None;
                core::mem::swap(&mut slot, &mut state.cached_request_payload);
                let mut cached_payload = match slot {
                    Some(payload) => payload,
                    None => Vec::new(),
                };
                let ghost cached = cached_payload@;

                let payload_offset = block_offset(&request_block1);
                let spliced_result = extending_splice(
                    &mut cached_payload,
                    payload_offset,
                    payload_offset + request_block1.size(),
                    request.message.payload.as_slice(),
                    MAXIMUM_UNCOMMITTED_BUFFER_RESERVE_LENGTH,
                );
                match spliced_result {
                    Ok(_) => {},
                    Err(message) => {
                        state.cached_request_payload = Some(cached_payload);
                        return Err(HandlingError::internal(message.as_str()));
                    },
                }
                assert(cached_payload@ == spliced(
                    cached,
                    payload_offset as int,
                    payload_offset + block_size(request_block1),
                    x.message.payload,
                    0u8,
                ));

                if request_block1.more {
                    state.cached_request_payload = Some(cached_payload);
                    match &mut request.response {
                        Some(response) => {
                            response.message.add_option_as(CoapOption::Block1, request_block1);
                            response.message.header.code = MessageClass::Response(
                                ResponseType::Continue,
                            );
                            assert(response.message@ =~= with_code(
                                with_block1(x.response->0, request_block1),
                                ResponseType::Continue,
                            ));
                            Ok(true)
                        },
                        None => Err(HandlingError::not_handled()),
                    }
                } else {
                    request.message.payload = cached_payload;

                    match &mut request.response {
                        Some(response) => {
                            response.message.add_option_as(CoapOption::Block1, request_block1);
                            assert(response.message@ =~= with_block1(
                                x.response->0,
                                request_block1,
                            ));
                            Ok(false)
                        },
                        None => Err(HandlingError::not_handled()),
                    }
                }
            },
            None => {
                let maybe_response_block1 = match Self::advertise_block_size_if_necessary(
                    message_size,
                    total_payload_size,
                    max_total_message_size,
                ) {
                    Ok(block) => block,
                    Err(e) => {
                        return Err(e);
                    },
                };
                match maybe_response_block1 {
                    Some(response_block1) => {
                        match &mut request.response {
                            Some(response) => {
                                response.message.add_option_as(
                                    CoapOption::Block1,
                                    response_block1,
                                );
                                response.message.header.code = MessageClass::Response(
                                    ResponseType::RequestEntityTooLarge,
                                );
                                assert(response.message@ =~= with_code(
                                    with_block1(x.response->0, response_block1),
                                    ResponseType::RequestEntityTooLarge,
                                ));
                                Ok(true)
                            },
                            None => Err(HandlingError::not_handled()),
                        }
                    },
                    None => Ok(false),
                }
            },
        }
    }

    /// The Block2 part of handling an inbound request.
    pub fn maybe_handle_request_block2(
        request: &mut CoapRequest<Endpoint>,
        state: &mut BlockState,
    ) -> (r: Result<bool, HandlingError>)
        ensures
            final(request).source == old(request).source,
            result_view(r) == request_block2_step(exchange_of(*old(request)), old(state)@).result,
            exchange_of(*final(request)) == request_block2_step(
                exchange_of(*old(request)),
                old(state)@,
            ).exchange,
            final(state)@ == request_block2_step(exchange_of(*old(request)), old(state)@).state,
    {
        proof {
            use_type_invariant(&*state);
        }
        let maybe_block2 = match request.message.get_first_option_as::<BlockValue>(
            CoapOption::Block2,
        ) {
            Some(Ok(block)) => Some(block),
            _ => None,
        };
        assert(maybe_block2 == block_option(
            request.message.options@,
            option_number(CoapOption::Block2),
        ));
        state.last_request_block2 = maybe_block2;

        match maybe_block2 {
            Some(block2) => {
                let mut slot: Option<Packet> = None;
                core::mem::swap(&mut slot, &mut state.cached_response);
                match slot {
                    Some(response) => {
                        let served_result = Self::maybe_serve_cached_response(
                            request,
                            block2,
                            &response,
                        );
                        match served_result {
                            Ok(has_more_chunks) => {
                                if has_more_chunks {
                                    state.cached_response = Some(response);
                                }
                                Ok(true)
                            },
                            Err(e) => {
                                state.cached_response = Some(response);
                                Err(e)
                            },
                        }
                    },
                    None => Ok(false),
                }
            },
            None => Ok(false),
        }
    }

    /// Serves the block that `request_block2` asks for from the cached
    /// response; returns whether more blocks follow it.
    pub fn maybe_serve_cached_response(
        request: &mut CoapRequest<Endpoint>,
        request_block2: BlockValue,
        cached_response: &Packet,
    ) -> (r: Result<bool, HandlingError>)
        requires
            request_block2.size_exponent <= 7,
            cached_response.token@.len() < 16,
        ensures
            final(request).source == old(request).source,
            result_view(r) == serve_step(
                exchange_of(*old(request)),
                request_block2,
                cached_response@,
            ).0,
            exchange_of(*final(request)) == serve_step(
                exchange_of(*old(request)),
                request_block2,
                cached_response@,
            ).1,
    {
        let ghost x = exchange_of(*request);
        match &mut request.response {
            Some(response) => {
                Self::packet_clone_limited(&mut response.message, cached_response);
                let ghost copied = response.message@;

                let cached_payload = &cached_response.payload;
                let request_block_size = request_block2.size();
                let start = block_offset(&request_block2);
                if start >= cached_payload.len() {
                    let mut message = "num=".to_owned();
                    message.append(decimal_string(request_block2.num as u128).as_str());
                    message.append(", block_size=");
                    message.append(decimal_string(request_block_size as u128).as_str());
                    return Err(HandlingError::bad_request(message.as_str()));
                }
                let end = if cached_payload.len() - start < request_block_size {
                    cached_payload.len()
                } else {
                    start + request_block_size
                };
                let cached_payload_chunk = slice_to_vec(
                    slice_subrange(cached_payload.as_slice(), start, end),
                );
                response.message.payload = cached_payload_chunk;

                let has_more_chunks = cached_payload.len() - start > request_block_size;
                let response_block2 = BlockValue {
                    num: request_block2.num,
                    more: has_more_chunks,
                    size_exponent: request_block2.size_exponent,
                };
                let mut values: Vec<BlockValue> = Vec::new();
                values.push(response_block2);
                response.message.set_options_as::<BlockValue>(CoapOption::Block2, values);
                assert(Seq::new(values@.len(), |j: int| values@[j].encoding())
                    =~= seq![response_block2.encoding()]);
                assert(response.message@ =~= served(
                    x.response->0,
                    request_block2,
                    cached_response@,
                ).1);
                Ok(has_more_chunks)
            },
            None => Err(HandlingError::not_handled()),
        }
    }

    /// Equivalent to `dst.clone_from(src)` with the exception of not copying
    /// message_id or payload.
    pub fn packet_clone_limited(dst: &mut Packet, src: &Packet)
        requires
            src.token@.len() < 16,
        ensures
            final(dst)@ == clone_limited(old(dst)@, src@),
    {
        dst.header.set_version(src.header.get_version());
        dst.header.set_type(src.header.get_type());
        dst.header.code = src.header.code;
        dst.set_token(slice_to_vec(src.get_token()));
        let ghost header = dst.header;
        let count = src.options.len();
        let mut i: usize = 0;
        assert(src.options@.take(0) =~= Seq::<(u16, Seq<Seq<u8>>)>::empty());
        while i < count
            invariant
                i <= count,
                count == src.options@.len(),
                dst.header == header,
                dst.token@ == src.token@,
                dst.payload@ == old(dst).payload@,
                dst.options@ == with_all_set(old(dst).options@, src.options@.take(i as int)),
            decreases count - i,
        {
            let option = src.options.number_at(i);
            let value = src.options.values_at(i);
            proof {
                crate::packet::lemma_option_number_round_trip(option);
                let next = src.options@.take(i + 1);
                assert(next.drop_last() =~= src.options@.take(i as int));
                assert(next.last() == src.options@[i as int]);
            }
            dst.set_option(CoapOption::from(option), clone_values(value));
            i = i + 1;
        }
        assert(src.options@.take(i as int) =~= src.options@);
        assert(dst@ =~= clone_limited(old(dst)@, src@));
    }

    /// Intercepts a prepared response before it is to be delivered over the
    /// network.  If the payload assigned to the response is too large to be
    /// transmitted without fragmenting into blocks, the block handler will
    /// cache the response and serve it out via subsequent client requests
    /// (that in turn must be directed to [`BlockHandler::intercept_request`]).
    ///
    /// Returns true if the response has been manipulated and is being handled
    /// using Block1 or Block2 fragmentation; false otherwise.
    ///
    /// The state that the cache keeps for the request decides; whatever it
    /// is, the response is handled as [`response_step`] says from it.
    pub fn intercept_response(&mut self, request: &mut CoapRequest<Endpoint>) -> (r: Result<
        bool,
        HandlingError,
    >)
        requires
            old(request).response matches Some(response) ==> response.message.token@.len() < 16,
        ensures
            final(self).config() == old(self).config(),
            final(request).source == old(request).source,
            exists|before: BlockStateView| #[trigger]
                state_ok(before) && {
                    let step = response_step(
                        exchange_of(*old(request)),
                        old(self).config().max_total_message_size,
                        before,
                    );
                    &&& result_view(r) == step.result
                    &&& exchange_of(*final(request)) == step.exchange
                },
    {
        let key = RequestCacheKey::from(request);
        let max_total_message_size = self.config.max_total_message_size;
        let state = state_entry(&mut self.states, key, BlockState::default());
        let ghost before = state@;
        proof {
            use_type_invariant(&*state);
        }
        let r = Self::handle_response(request, max_total_message_size, state);
        assert(state_ok(before));
        r
    }

    /// Handles an outbound response from the state kept for its request.
    pub fn handle_response(
        request: &mut CoapRequest<Endpoint>,
        max_total_message_size: usize,
        state: &mut BlockState,
    ) -> (r: Result<bool, HandlingError>)
        requires
            old(request).response matches Some(response) ==> response.message.token@.len() < 16,
        ensures
            final(request).source == old(request).source,
            result_view(r) == response_step(
                exchange_of(*old(request)),
                max_total_message_size,
                old(state)@,
            ).result,
            exchange_of(*final(request)) == response_step(
                exchange_of(*old(request)),
                max_total_message_size,
                old(state)@,
            ).exchange,
            final(state)@ == response_step(
                exchange_of(*old(request)),
                max_total_message_size,
                old(state)@,
            ).state,
    {
        proof {
            use_type_invariant(&*state);
        }
        let cached_response = match &request.response {
            Some(response) => {
                // Don't do anything if the caller appears to be trying to
                // implement this manually.
                if response.message.get_option(CoapOption::Block2).is_some() {
                    return Ok(false);
                }
                response.message.clone()
            },
            None => {
                return Ok(false);
            },
        };
        let negotiated = match Self::negotiate_block_size_if_necessary(
            state.last_request_block2,
            Self::compute_message_size_hack(&cached_response),
            cached_response.payload.len(),
            max_total_message_size,
        ) {
            Ok(block) => block,
            Err(e) => {
                return Err(e);
            },
        };
        match negotiated {
            Some(request_block2) => {
                let has_more_chunks = match Self::maybe_serve_cached_response(
                    request,
                    request_block2,
                    &cached_response,
                ) {
                    Ok(has_more_chunks) => has_more_chunks,
                    Err(e) => {
                        return Err(e);
                    },
                };
                if has_more_chunks {
                    state.cached_response = Some(cached_response);
                    return Ok(true);
                }
                Ok(false)
            },
            None => Ok(false),
        }
    }

    /// The size of the message on the wire, payload included: what the parts
    /// other than the payload take, and the length of the payload.
    pub fn compute_message_size_hack(packet: &Packet) -> (size: u128)
        ensures
            size == size_without_payload(packet@) + packet.payload@.len(),
            packet.payload@.len() <= size <= 4 + 3 * usize::MAX,
    {
        packet.size_without_payload() + packet.payload.len() as u128
    }

    /// What the total message size leaves for the payload of a message of
    /// `message_size` bytes, `total_payload_size` of them payload, with room
    /// kept for the block options.
    pub fn room_for_payload(
        message_size: u128,
        total_payload_size: usize,
        max_total_message_size: usize,
    ) -> (r: Result<usize, HandlingError>)
        requires
            total_payload_size <= message_size <= 4 + 3 * usize::MAX,
        ensures
            match room_for_payload(
                message_size + BLOCK_OPTIONS_MAX_LENGTH - total_payload_size,
                max_total_message_size as int,
            ) {
                Ok(room) => r == Ok::<usize, HandlingError>(room as usize) && room
                    <= max_total_message_size,
                Err(fault) => r matches Err(e) && e@ == fault,
            },
    {
        let max_non_payload_size: u128 = (message_size + BLOCK_OPTIONS_MAX_LENGTH as u128)
            - total_payload_size as u128;
        if (max_total_message_size as u128) < max_non_payload_size {
            let mut message = "Message too large to encode at any block size: ".to_owned();
            message.append(decimal_string(max_total_message_size as u128).as_str());
            message.append(" exceeds ");
            message.append(decimal_string(max_non_payload_size).as_str());
            return Err(HandlingError::internal(message.as_str()));
        }
        Ok((max_total_message_size as u128 - max_non_payload_size) as usize)
    }

    /// The largest block size that is not above `size`, and the smallest
    /// block size for a size below it.
    pub fn largest_block_size(size: usize) -> (block_size: usize)
        ensures
            block_size == rounded_size(size as int),
            is_block_size(block_size as int),
            size >= 16 ==> block_size <= size,
            size < 2048 ==> size < 2 * block_size,
    {
        proof {
            reveal_with_fuel(pow2, 12);
        }
        if size < 32 {
            16
        } else if size < 64 {
            32
        } else if size < 128 {
            64
        } else if size < 256 {
            128
        } else if size < 512 {
            256
        } else if size < 1024 {
            512
        } else {
            1024
        }
    }

    /// Settles the block value to send a response with, if any.
    pub fn negotiate_block_size_if_necessary(
        request_block: Option<BlockValue>,
        message_size: u128,
        total_payload_size: usize,
        max_total_message_size: usize,
    ) -> (r: Result<Option<BlockValue>, HandlingError>)
        requires
            request_block matches Some(block) ==> block.size_exponent <= 7,
            total_payload_size <= message_size <= 4 + 3 * usize::MAX,
        ensures
            match negotiation(
                request_block,
                message_size + BLOCK_OPTIONS_MAX_LENGTH - total_payload_size,
                total_payload_size as int,
                max_total_message_size as int,
            ) {
                Ok(block) => r == Ok::<Option<BlockValue>, HandlingError>(block),
                Err(fault) => r matches Err(e) && e@ == fault,
            },
            r matches Ok(Some(block)) ==> block.size_exponent <= 6,
    {
        let max_block_size = match Self::room_for_payload(
            message_size,
            total_payload_size,
            max_total_message_size,
        ) {
            Ok(room) => room,
            Err(e) => {
                return Err(e);
            },
        };
        if request_block.is_none() && total_payload_size <= max_block_size {
            // The payload fits, and the client didn't request we do any
            // different, so proceed normally without block-wise transfer.
            return Ok(None);
        }
        if max_block_size < 16 {
            let e = InvalidBlockValue::SizeExponentEncodingError(max_block_size);
            return Err(HandlingError::internal(e.to_string().as_str()));
        }
        let (wanted, reply_start_offset) = match request_block {
            Some(request_block) => {
                // Client requested block encoding so let's give them that, but
                // not larger than our max block size.
                let wanted = if request_block.size() <= max_block_size {
                    request_block.size()
                } else {
                    max_block_size
                };
                (wanted, block_offset(&request_block))
            },
            // Client did not ask for it, but we need block encoding for this
            // to work given our max block size.
            None => (max_block_size, 0),
        };
        let negotiated_block_size = Self::largest_block_size(wanted);
        proof {
            reveal_with_fuel(pow2, 12);
            assert(size_exponent_for(negotiated_block_size as int) == size_exponent_for(
                wanted as int,
            ));
        }
        let num = reply_start_offset / negotiated_block_size;
        let more = reply_start_offset + negotiated_block_size < total_payload_size;
        match BlockValue::new(num, more, negotiated_block_size) {
            Ok(block) => Ok(Some(block)),
            Err(e) => Err(HandlingError::internal(e.to_string().as_str())),
        }
    }

    /// Settles the block value that tells a peer to send its payload in
    /// blocks, if it has to.
    pub fn advertise_block_size_if_necessary(
        message_size: u128,
        total_payload_size: usize,
        max_total_message_size: usize,
    ) -> (r: Result<Option<BlockValue>, HandlingError>)
        requires
            total_payload_size <= message_size <= 4 + 3 * usize::MAX,
        ensures
            match advertisement(
                message_size + BLOCK_OPTIONS_MAX_LENGTH - total_payload_size,
                total_payload_size as int,
                max_total_message_size as int,
            ) {
                Ok(block) => r == Ok::<Option<BlockValue>, HandlingError>(block),
                Err(fault) => r matches Err(e) && e@ == fault,
            },
            r matches Ok(Some(block)) ==> block.size_exponent <= 6,
    {
        let max_block_size = match Self::room_for_payload(
            message_size,
            total_payload_size,
            max_total_message_size,
        ) {
            Ok(room) => room,
            Err(e) => {
                return Err(e);
            },
        };
        if total_payload_size <= max_block_size {
            return Ok(None);
        }
        if max_block_size == 0 {
            let e = InvalidBlockValue::SizeExponentEncodingError(max_block_size);
            return Err(HandlingError::internal(e.to_string().as_str()));
        }
        let advertised_block_size = Self::largest_block_size(max_block_size);
        proof {
            reveal_with_fuel(pow2, 12);
            assert(size_exponent_for(advertised_block_size as int) == size_exponent_for(
                max_block_size as int,
            ));
        }
        match BlockValue::new(0, true, advertised_block_size) {
            Ok(block) => Ok(Some(block)),
            Err(e) => Err(HandlingError::internal(e.to_string().as_str())),
        }
    }
}

} // verus!
