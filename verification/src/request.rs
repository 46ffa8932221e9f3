//! The request, with the response that is prepared for it.

use vstd::prelude::*;
use vstd::string::StringSliceAdditionalSpecFns;
use vstd::utf8::{decode_utf8, encode_utf8, valid_utf8};

use crate::error::{HandlingError, IncompatibleOptionValueFormat, InvalidObserve};
use crate::header::{MessageClass, RequestType as Method};
use crate::option_map::{lookup, values_view, with_added, with_cleared};
use crate::option_value::{
    be_minimal, be_value, string_from_utf8, string_into_bytes, utf8_error_message,
};
use crate::packet::{
    first_value, observe_option_number, observe_option_of, option_number, CoapOption,
    ContentFormat, ObserveOption, Packet,
};
use crate::response::{response_type_for, CoapResponse};

verus! {

/// The CoAP request.
#[derive(Clone, Debug)]
pub struct CoapRequest<Endpoint> {
    pub message: Packet,
    pub response: Option<CoapResponse>,
    pub source: Option<Endpoint>,
}

/// The position of the first slash in `s`, or its length where it has none.
pub open spec fn first_slash(s: Seq<u8>) -> int
    decreases s.len(),
{
    if s.len() == 0 || s[0] == 47 {
        0
    } else {
        1 + first_slash(s.drop_first())
    }
}

/// The parts of `s` between its slashes: one more than it has slashes.
pub open spec fn split_on_slash(s: Seq<u8>) -> Seq<Seq<u8>>
    decreases s.len(),
{
    let k = first_slash(s);
    if 0 <= k < s.len() {
        seq![s.subrange(0, k)] + split_on_slash(s.subrange(k + 1, s.len() as int))
    } else {
        seq![s]
    }
}

/// The parts without the first where that one is empty.
pub open spec fn without_empty_first(parts: Seq<Seq<u8>>) -> Seq<Seq<u8>> {
    if parts.len() > 0 && parts[0].len() == 0 {
        parts.drop_first()
    } else {
        parts
    }
}

/// The segments of a path: what stands between its slashes, a leading slash
/// apart.
pub open spec fn path_segments(path: Seq<u8>) -> Seq<Seq<u8>> {
    without_empty_first(split_on_slash(path))
}

/// `entries` with each of `values` appended in turn to the values of
/// `number`.
pub open spec fn with_all_added(
    entries: Seq<(u16, Seq<Seq<u8>>)>,
    number: u16,
    values: Seq<Seq<u8>>,
) -> Seq<(u16, Seq<Seq<u8>>)>
    decreases values.len(),
{
    if values.len() == 0 {
        entries
    } else {
        with_added(with_all_added(entries, number, values.drop_last()), number, values.last())
    }
}

/// The values that are valid UTF-8, in their order.
pub open spec fn valid_segments(values: Seq<Seq<u8>>) -> Seq<Seq<u8>>
    decreases values.len(),
{
    if values.len() == 0 {
        Seq::empty()
    } else if valid_utf8(values.last()) {
        valid_segments(values.drop_last()).push(values.last())
    } else {
        valid_segments(values.drop_last())
    }
}

/// The parts with a slash between each two.
pub open spec fn join_with_slash(parts: Seq<Seq<u8>>) -> Seq<u8>
    decreases parts.len(),
{
    if parts.len() == 0 {
        Seq::empty()
    } else if parts.len() == 1 {
        parts[0]
    } else {
        join_with_slash(parts.drop_last()) + seq![47u8] + parts.last()
    }
}

/// The values of an option, none where it has no entry.
pub open spec fn values_of(entries: Seq<(u16, Seq<Seq<u8>>)>, number: u16) -> Seq<Seq<u8>> {
    match lookup(entries, number) {
        Some(values) => values,
        None => Seq::empty(),
    }
}

/// The index of the first value that is not valid UTF-8, or the number of
/// values where all are.
pub open spec fn first_invalid(values: Seq<Seq<u8>>) -> int
    decreases values.len(),
{
    if values.len() == 0 || !valid_utf8(values[0]) {
        0
    } else {
        1 + first_invalid(values.drop_first())
    }
}

/// The method that a code stands for: the request method itself, and
/// unknown for any other code.
pub open spec fn method_of(code: MessageClass) -> Method {
    match code {
        MessageClass::Request(Method::Get) => Method::Get,
        MessageClass::Request(Method::Post) => Method::Post,
        MessageClass::Request(Method::Put) => Method::Put,
        MessageClass::Request(Method::Delete) => Method::Delete,
        MessageClass::Request(Method::Fetch) => Method::Fetch,
        MessageClass::Request(Method::Patch) => Method::Patch,
        MessageClass::Request(Method::IPatch) => Method::IPatch,
        _ => Method::UnKnown,
    }
}

proof fn lemma_first_slash_is(s: Seq<u8>, k: int)
    requires
        0 <= k <= s.len(),
        forall|i: int| 0 <= i < k ==> s[i] != 47,
        k < s.len() ==> s[k] == 47,
    ensures
        first_slash(s) == k,
    decreases s.len(),
{
    if k > 0 {
        let rest = s.drop_first();
        assert forall|i: int| 0 <= i < k - 1 implies rest[i] != 47 by {
            assert(rest[i] == s[i + 1]);
        }
        lemma_first_slash_is(rest, k - 1);
    }
}

proof fn lemma_first_invalid_is(values: Seq<Seq<u8>>, k: int)
    requires
        0 <= k <= values.len(),
        forall|i: int| 0 <= i < k ==> valid_utf8(values[i]),
        k < values.len() ==> !valid_utf8(values[k]),
    ensures
        first_invalid(values) == k,
    decreases values.len(),
{
    if k > 0 {
        let rest = values.drop_first();
        assert forall|i: int| 0 <= i < k - 1 implies valid_utf8(rest[i]) by {
            assert(rest[i] == values[i + 1]);
        }
        lemma_first_invalid_is(rest, k - 1);
    }
}

impl<Endpoint> Default for CoapRequest<Endpoint> {
    /// A request with a new message, no response and no source.
    fn default() -> (request: Self)
        ensures
            request.message@ == Packet::new_view(),
            request.response is None,
            request.source is None,
    {
        CoapRequest { response: None, message: Packet::new(), source: None }
    }
}

impl<Endpoint> CoapRequest<Endpoint> {
    /// Creates a new request.
    pub fn new() -> (request: CoapRequest<Endpoint>)
        ensures
            request.message@ == Packet::new_view(),
            request.response is None,
            request.source is None,
    {
        CoapRequest { response: None, message: Packet::new(), source: None }
    }

    /// Creates a request from a packet, with the response that answers it
    /// where its type is one that is answered.
    pub fn from_packet(packet: Packet, source: Endpoint) -> (request: CoapRequest<Endpoint>)
        requires
            packet.token@.len() < 16,
        ensures
            request.message == packet,
            request.source == Some(source),
            request.response is Some <==> response_type_for(packet.header.message_type()) is Some,
            request.response matches Some(response) ==> {
                &&& response.message.header.version() == 1
                &&& Some(response.message.header.message_type()) == response_type_for(
                    packet.header.message_type(),
                )
                &&& response.message.header.token_length() == packet.token@.len()
                &&& response.message.header.code == MessageClass::Response(
                    crate::header::ResponseType::Content,
                )
                &&& response.message.header.message_id == packet.header.message_id
                &&& response.message.token@ == packet.token@
                &&& response.message.options@ == Seq::<(u16, Seq<Seq<u8>>)>::empty()
                &&& response.message.payload@ == Seq::<u8>::empty()
            },
    {
        CoapRequest { response: CoapResponse::new(&packet), message: packet, source: Some(source) }
    }

    /// Turns the response into the report of an error that carries a code:
    /// that code, the message as a text/plain payload. Returns whether it
    /// did; without a response, or without a code, nothing changes.
    pub fn apply_from_error(&mut self, error: HandlingError) -> (applied: bool)
        ensures
            applied == (old(self).response is Some && error.code is Some),
            final(self).message == old(self).message,
            final(self).source == old(self).source,
            !applied ==> final(self).response == old(self).response,
            applied ==> final(self).response is Some && {
                let before = old(self).response->0.message;
                let after = final(self).response->0.message;
                &&& after.header.code == MessageClass::Response(error.code->0)
                &&& after.header.ver_type_tkl == before.header.ver_type_tkl
                &&& after.header.message_id == before.header.message_id
                &&& after.token@ == before.token@
                &&& after.options@ == with_added(
                    before.options@,
                    option_number(CoapOption::ContentFormat),
                    Seq::empty(),
                )
                &&& after.payload@ == encode_utf8(error.message@)
            },
    {
        match &mut self.response {
            Some(reply) => {
                match error.code {
                    Some(code) => {
                        reply.message.header.code = MessageClass::Response(code);
                        reply.message.set_content_format(ContentFormat::TextPlain);
                        reply.message.payload = string_into_bytes(error.message);
                        return true;
                    },
                    None => {},
                }
            },
            None => {},
        }
        false
    }

    /// Sets the method.
    pub fn set_method(&mut self, method: Method)
        ensures
            final(self).message.header.code == MessageClass::Request(method),
            final(self).message.header.ver_type_tkl == old(self).message.header.ver_type_tkl,
            final(self).message.header.message_id == old(self).message.header.message_id,
            final(self).message.token@ == old(self).message.token@,
            final(self).message.options@ == old(self).message.options@,
            final(self).message.payload@ == old(self).message.payload@,
            final(self).response == old(self).response,
            final(self).source == old(self).source,
    {
        self.message.header.code = MessageClass::Request(method);
    }

    /// Returns the method.
    pub fn get_method(&self) -> (method: &Method)
        ensures
            *method == method_of(self.message.header.code),
    {
        match self.message.header.code {
            MessageClass::Request(Method::Get) => &Method::Get,
            MessageClass::Request(Method::Post) => &Method::Post,
            MessageClass::Request(Method::Put) => &Method::Put,
            MessageClass::Request(Method::Delete) => &Method::Delete,
            MessageClass::Request(Method::Fetch) => &Method::Fetch,
            MessageClass::Request(Method::Patch) => &Method::Patch,
            MessageClass::Request(Method::IPatch) => &Method::IPatch,
            _ => &Method::UnKnown,
        }
    }

    /// Sets the path: its segments become the values of the Uri-Path option,
    /// in place of any it had.
    pub fn set_path(&mut self, path: &str)
        ensures
            final(self).message.options@ == with_all_added(
                with_cleared(old(self).message.options@, option_number(CoapOption::UriPath)),
                option_number(CoapOption::UriPath),
                path_segments(path.spec_bytes()),
            ),
            final(self).message.header == old(self).message.header,
            final(self).message.token@ == old(self).message.token@,
            final(self).message.payload@ == old(self).message.payload@,
            final(self).response == old(self).response,
            final(self).source == old(self).source,
    {
        self.message.clear_option(CoapOption::UriPath);
        let ghost cleared = self.message.options@;
        let ghost number = option_number(CoapOption::UriPath);

        let bytes = path.as_bytes();
        let n = bytes.len();
        let mut start: usize = 0;
        let mut i: usize = 0;
        let mut first = true;
        let mut done = false;
        let ghost mut parts: Seq<Seq<u8>> = Seq::empty();
        assert(bytes@.subrange(0, n as int) =~= bytes@);
        assert(parts + split_on_slash(bytes@) =~= split_on_slash(bytes@));
        while !done
            invariant
                n == bytes@.len(),
                start <= i <= n,
                forall|k: int| start <= k < i ==> bytes@[k] != 47,
                first == (parts.len() == 0),
                !done ==> split_on_slash(bytes@) == parts + split_on_slash(
                    bytes@.subrange(start as int, n as int),
                ),
                done ==> split_on_slash(bytes@) == parts,
                self.message.options@ == with_all_added(
                    cleared,
                    number,
                    without_empty_first(parts),
                ),
                number == option_number(CoapOption::UriPath),
                self.message.header == old(self).message.header,
                self.message.token@ == old(self).message.token@,
                self.message.payload@ == old(self).message.payload@,
                self.response == old(self).response,
                self.source == old(self).source,
            decreases
                    (if done {
                        0int
                    } else {
                        1int
                    }) + (n - i),
        {
            if i < n && bytes[i] != 47 {
                i = i + 1;
            } else {
                let ghost rest = bytes@.subrange(start as int, n as int);
                let segment = vstd::slice::slice_to_vec(
                    vstd::slice::slice_subrange(bytes, start, i),
                );
                proof {
                    assert forall|k: int| 0 <= k < i - start implies rest[k] != 47 by {
                        assert(rest[k] == bytes@[start + k]);
                    }
                    lemma_first_slash_is(rest, i - start);
                    assert(rest.subrange(0, i - start) =~= segment@);
                    if i < n {
                        assert(rest.subrange(i - start + 1, rest.len() as int)
                            =~= bytes@.subrange(i + 1, n as int));
                        assert(parts + (seq![segment@] + split_on_slash(
                            bytes@.subrange(i + 1, n as int),
                        )) =~= parts.push(segment@) + split_on_slash(
                            bytes@.subrange(i + 1, n as int),
                        ));
                    } else {
                        assert(rest =~= segment@);
                        assert(parts + seq![segment@] =~= parts.push(segment@));
                    }
                    let next = parts.push(segment@);
                    if first && segment@.len() == 0 {
                        assert(without_empty_first(next) =~= without_empty_first(parts));
                    } else {
                        assert(without_empty_first(next) =~= without_empty_first(parts).push(
                            segment@,
                        ));
                        assert(without_empty_first(next).drop_last() =~= without_empty_first(
                            parts,
                        ));
                    }
                    parts = next;
                }
                if !(first && segment.is_empty()) {
                    self.message.add_option(CoapOption::UriPath, segment);
                }
                first = false;
                if i < n {
                    i = i + 1;
                    start = i;
                } else {
                    done = true;
                }
            }
        }
    }

    /// Returns the path: the values of the Uri-Path option that are valid
    /// UTF-8, with a slash between each two.
    pub fn get_path(&self) -> (path: String)
        ensures
            encode_utf8(path@) == join_with_slash(
                valid_segments(
                    values_of(self.message.options@, option_number(CoapOption::UriPath)),
                ),
            ),
            path@ == decode_utf8(
                join_with_slash(
                    valid_segments(
                        values_of(self.message.options@, option_number(CoapOption::UriPath)),
                    ),
                ),
            ),
    {
        broadcast use vstd::utf8::group_utf8_lib;

        match self.message.get_option(CoapOption::UriPath) {
            Some(options) => {
                let ghost values = values_view(*options);
                let mut joined: Vec<u8> = Vec::new();
                let mut any = false;
                let mut j: usize = 0;
                assert(values.subrange(0, 0) =~= Seq::<Seq<u8>>::empty());
                while j < options.len()
                    invariant
                        j <= options@.len(),
                        values == values_view(*options),
                        any == (valid_segments(values.subrange(0, j as int)).len() > 0),
                        joined@ == join_with_slash(valid_segments(values.subrange(0, j as int))),
                        valid_utf8(joined@),
                    decreases options@.len() - j,
                {
                    let option = &options[j];
                    let ghost before = values.subrange(0, j as int);
                    let ghost after = values.subrange(0, j + 1);
                    proof {
                        assert(after.drop_last() =~= before);
                        assert(after.last() == option@);
                    }
                    if string_from_utf8(option.clone()).is_ok() {
                        let ghost kept = valid_segments(before);
                        proof {
                            assert(valid_segments(after) == kept.push(option@));
                            assert(kept.push(option@).drop_last() =~= kept);
                        }
                        if any {
                            joined.push(47);
                            proof {
                                let slash = seq![47u8];
                                let text = seq!['/'];
                                assert(vstd::utf8::is_ascii_chars(text));
                                vstd::utf8::is_ascii_chars_encode_utf8(text);
                                assert(text[0] as u8 == encode_utf8(text)[0]);
                                assert(encode_utf8(text) =~= slash);
                                vstd::utf8::encode_utf8_valid_utf8(text);
                                assert(joined@ =~= join_with_slash(kept) + slash);
                                vstd::utf8::valid_utf8_concat(join_with_slash(kept), slash);
                            }
                        }
                        let ghost start = joined@;
                        let mut k: usize = 0;
                        while k < option.len()
                            invariant
                                k <= option@.len(),
                                joined@ == start + option@.subrange(0, k as int),
                            decreases option@.len() - k,
                        {
                            joined.push(option[k]);
                            assert(joined@ =~= start + option@.subrange(0, k + 1));
                            k = k + 1;
                        }
                        assert(option@.subrange(0, k as int) =~= option@);
                        proof {
                            vstd::utf8::valid_utf8_concat(start, option@);
                        }
                        any = true;
                    }
                    j = j + 1;
                }
                assert(values.subrange(0, j as int) =~= values);
                match string_from_utf8(joined) {
                    Ok(path) => path,
                    Err(_) => String::new(),
                }
            },
            _ => String::new(),
        }
    }

    /// Returns the path as a vector (as it is encoded in CoAP rather than in
    /// HTTP-style paths): the values of the Uri-Path option as texts, or the
    /// fault of the first that is not valid UTF-8.
    pub fn get_path_as_vec(&self) -> (r: Result<Vec<String>, IncompatibleOptionValueFormat>)
        ensures
            ({
                let values = values_of(self.message.options@, option_number(CoapOption::UriPath));
                &&& r is Ok <==> first_invalid(values) == values.len()
                &&& r matches Ok(segments) ==> segments@.len() == values.len() && forall|j: int|
                    0 <= j < values.len() ==> (#[trigger] segments@[j])@ == decode_utf8(values[j])
                &&& r matches Err(e) ==> e.message@ == utf8_error_message(
                    values[first_invalid(values)],
                )
            }),
    {
        match self.message.get_option(CoapOption::UriPath) {
            Some(paths) => {
                let ghost values = values_view(*paths);
                let mut segments: Vec<String> = Vec::new();
                let mut j: usize = 0;
                while j < paths.len()
                    invariant
                        j <= paths@.len(),
                        values == values_view(*paths),
                        values == values_of(
                            self.message.options@,
                            option_number(CoapOption::UriPath),
                        ),
                        segments@.len() == j,
                        forall|k: int| 0 <= k < j ==> valid_utf8(values[k]),
                        forall|k: int|
                            0 <= k < j ==> (#[trigger] segments@[k])@ == decode_utf8(values[k]),
                    decreases paths@.len() - j,
                {
                    assert(values[j as int] == paths@[j as int]@);
                    match string_from_utf8(paths[j].clone()) {
                        Ok(segment) => {
                            segments.push(segment);
                        },
                        Err(message) => {
                            proof {
                                lemma_first_invalid_is(values, j as int);
                            }
                            return Err(IncompatibleOptionValueFormat { message });
                        },
                    }
                    j = j + 1;
                }
                proof {
                    lemma_first_invalid_is(values, j as int);
                }
                Ok(segments)
            },
            None => Ok(Vec::new()),
        }
    }

    /// Returns the flag in the Observe option or InvalidObserve if the flag
    /// was provided but not understood.
    pub fn get_observe_flag(&self) -> (r: Option<Result<ObserveOption, InvalidObserve>>)
        ensures
            r == match first_value(self.message.options@, option_number(CoapOption::Observe)) {
                Some(value) => Some(
                    if value.len() <= 4 && observe_option_of(be_value(value) as usize) is Some {
                        Ok::<ObserveOption, InvalidObserve>(
                            observe_option_of(be_value(value) as usize)->0,
                        )
                    } else {
                        Err::<ObserveOption, InvalidObserve>(InvalidObserve)
                    },
                ),
                None => None,
            },
    {
        match self.message.get_observe_value() {
            Some(observe) => Some(
                match observe {
                    Ok(value) => {
                        proof {
                            crate::option_value::lemma_be_value_bound(
                                first_value(
                                    self.message.options@,
                                    option_number(CoapOption::Observe),
                                )->0,
                            );
                            reveal_with_fuel(crate::option_value::pow256, 5);
                        }
                        if value == 0 {
                            Ok(ObserveOption::Register)
                        } else if value == 1 {
                            Ok(ObserveOption::Deregister)
                        } else {
                            Err(InvalidObserve)
                        }
                    },
                    Err(_) => Err(InvalidObserve),
                },
            ),
            None => None,
        }
    }

    /// Sets the flag in the Observe option.
    pub fn set_observe_flag(&mut self, flag: ObserveOption)
        ensures
            final(self).message.options@ == with_added(
                with_cleared(old(self).message.options@, option_number(CoapOption::Observe)),
                option_number(CoapOption::Observe),
                be_minimal(observe_option_number(flag) as nat),
            ),
            final(self).message.header == old(self).message.header,
            final(self).message.token@ == old(self).message.token@,
            final(self).message.payload@ == old(self).message.payload@,
            final(self).response == old(self).response,
            final(self).source == old(self).source,
    {
        let value: u32 = usize::from(flag) as u32;
        self.message.set_observe_value(value);
    }
}

} // verus!
