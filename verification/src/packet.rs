//! The message: header, token, options and payload, and its codec.

use vstd::prelude::*;
use vstd::slice::{slice_subrange, slice_to_vec};
use vstd::std_specs::convert::{FromSpecImpl, TryFromSpecImpl};

use crate::error::{
    IncompatibleOptionValueFormat, InvalidContentFormat, InvalidObserve, MessageError,
};
use crate::header::{Header, HeaderRaw, MessageClass};
use crate::option_map::{lookup, values_view, with_added, with_cleared, with_set, OptionMap};
use crate::option_value::{be_minimal, be_value, OptionValueType, OptionValueU16, OptionValueU32};
use crate::wire::{
    collect, decode_packet, encode_option, encode_options, encode_packet, encode_payload,
    field_extension,
    field_nibble, flatten, parse_option, parse_options, payload_is_written, previous_number,
    PacketView,
};

verus! {

/// The CoAP options.
#[derive(Debug, Clone, Copy, PartialEq, Eq, Structural)]
pub enum CoapOption {
    IfMatch,
    UriHost,
    ETag,
    IfNoneMatch,
    Observe,
    UriPort,
    LocationPath,
    Oscore,
    UriPath,
    ContentFormat,
    MaxAge,
    UriQuery,
    Accept,
    LocationQuery,
    Block2,
    Block1,
    ProxyUri,
    ProxyScheme,
    Size1,
    Size2,
    NoResponse,
    Unknown(u16),
}

/// The number of an option.
pub open spec fn option_number(option: CoapOption) -> u16 {
    match option {
        CoapOption::IfMatch => 1,
        CoapOption::UriHost => 3,
        CoapOption::ETag => 4,
        CoapOption::IfNoneMatch => 5,
        CoapOption::Observe => 6,
        CoapOption::UriPort => 7,
        CoapOption::LocationPath => 8,
        CoapOption::Oscore => 9,
        CoapOption::UriPath => 11,
        CoapOption::ContentFormat => 12,
        CoapOption::MaxAge => 14,
        CoapOption::UriQuery => 15,
        CoapOption::Accept => 17,
        CoapOption::LocationQuery => 20,
        CoapOption::Block2 => 23,
        CoapOption::Block1 => 27,
        CoapOption::ProxyUri => 35,
        CoapOption::ProxyScheme => 39,
        CoapOption::Size1 => 60,
        CoapOption::Size2 => 28,
        CoapOption::NoResponse => 258,
        CoapOption::Unknown(number) => number,
    }
}

/// The option that a number stands for: the one registered under it, else
/// the number itself as an unknown option.
pub open spec fn option_of_number(number: u16) -> CoapOption {
    if number == 1 {
        CoapOption::IfMatch
    } else if number == 3 {
        CoapOption::UriHost
    } else if number == 4 {
        CoapOption::ETag
    } else if number == 5 {
        CoapOption::IfNoneMatch
    } else if number == 6 {
        CoapOption::Observe
    } else if number == 7 {
        CoapOption::UriPort
    } else if number == 8 {
        CoapOption::LocationPath
    } else if number == 9 {
        CoapOption::Oscore
    } else if number == 11 {
        CoapOption::UriPath
    } else if number == 12 {
        CoapOption::ContentFormat
    } else if number == 14 {
        CoapOption::MaxAge
    } else if number == 15 {
        CoapOption::UriQuery
    } else if number == 17 {
        CoapOption::Accept
    } else if number == 20 {
        CoapOption::LocationQuery
    } else if number == 23 {
        CoapOption::Block2
    } else if number == 27 {
        CoapOption::Block1
    } else if number == 35 {
        CoapOption::ProxyUri
    } else if number == 39 {
        CoapOption::ProxyScheme
    } else if number == 60 {
        CoapOption::Size1
    } else if number == 28 {
        CoapOption::Size2
    } else if number == 258 {
        CoapOption::NoResponse
    } else {
        CoapOption::Unknown(number)
    }
}

impl From<u16> for CoapOption {
    fn from(number: u16) -> (option: CoapOption) {
        match number {
            1 => CoapOption::IfMatch,
            3 => CoapOption::UriHost,
            4 => CoapOption::ETag,
            5 => CoapOption::IfNoneMatch,
            6 => CoapOption::Observe,
            7 => CoapOption::UriPort,
            8 => CoapOption::LocationPath,
            9 => CoapOption::Oscore,
            11 => CoapOption::UriPath,
            12 => CoapOption::ContentFormat,
            14 => CoapOption::MaxAge,
            15 => CoapOption::UriQuery,
            17 => CoapOption::Accept,
            20 => CoapOption::LocationQuery,
            23 => CoapOption::Block2,
            27 => CoapOption::Block1,
            35 => CoapOption::ProxyUri,
            39 => CoapOption::ProxyScheme,
            60 => CoapOption::Size1,
            28 => CoapOption::Size2,
            258 => CoapOption::NoResponse,
            _ => CoapOption::Unknown(number),
        }
    }
}

impl FromSpecImpl<u16> for CoapOption {
    open spec fn obeys_from_spec() -> bool {
        true
    }

    open spec fn from_spec(number: u16) -> CoapOption {
        option_of_number(number)
    }
}

impl From<CoapOption> for u16 {
    fn from(option: CoapOption) -> (number: u16) {
        match option {
            CoapOption::IfMatch => 1,
            CoapOption::UriHost => 3,
            CoapOption::ETag => 4,
            CoapOption::IfNoneMatch => 5,
            CoapOption::Observe => 6,
            CoapOption::UriPort => 7,
            CoapOption::LocationPath => 8,
            CoapOption::Oscore => 9,
            CoapOption::UriPath => 11,
            CoapOption::ContentFormat => 12,
            CoapOption::MaxAge => 14,
            CoapOption::UriQuery => 15,
            CoapOption::Accept => 17,
            CoapOption::LocationQuery => 20,
            CoapOption::Block2 => 23,
            CoapOption::Block1 => 27,
            CoapOption::ProxyUri => 35,
            CoapOption::ProxyScheme => 39,
            CoapOption::Size1 => 60,
            CoapOption::Size2 => 28,
            CoapOption::NoResponse => 258,
            CoapOption::Unknown(number) => number,
        }
    }
}

impl FromSpecImpl<CoapOption> for u16 {
    open spec fn obeys_from_spec() -> bool {
        true
    }

    open spec fn from_spec(option: CoapOption) -> u16 {
        option_number(option)
    }
}

/// Every option number passes through unchanged: the option that stands for
/// a number has that number.
pub proof fn lemma_option_number_round_trip(number: u16)
    ensures
        option_number(option_of_number(number)) == number,
{
}

/// The content formats.
#[derive(Debug, Clone, Copy, PartialEq, Eq, Structural)]
#[non_exhaustive]
pub enum ContentFormat {
    TextPlain,
    /// Media-Type: `application/cose; cose-type="cose-encrypt0"`, ID: 16
    ApplicationCoseEncrypt0,
    /// Media-Type: `application/cose; cose-type="cose-mac0"`, ID: 17
    ApplicationCoseMac0,
    /// Media-Type: `application/cose; cose-type="cose-sign1"`, ID: 18
    ApplicationCoseSign1,
    ApplicationAceCbor,
    ImageGif,
    ImageJpeg,
    ImagePng,
    ApplicationLinkFormat,
    ApplicationXML,
    ApplicationOctetStream,
    ApplicationEXI,
    ApplicationJSON,
    ApplicationJsonPatchJson,
    ApplicationMergePatchJson,
    ApplicationCBOR,
    ApplicationCWt,
    ApplicationMultipartCore,
    ApplicationCborSeq,
    /// Media-Type: `application/cose; cose-type="cose-encrypt"`, ID: 96
    ApplicationCoseEncrypt,
    /// Media-Type: `application/cose; cose-type="cose-mac"`, ID: 97
    ApplicationCoseMac,
    /// Media-Type: `application/cose; cose-type="cose-sign"`, ID: 98
    ApplicationCoseSign,
    ApplicationCoseKey,
    ApplicationCoseKeySet,
    ApplicationSenmlJSON,
    ApplicationSensmlJSON,
    ApplicationSenmlCBOR,
    ApplicationSensmlCBOR,
    ApplicationSenmlExi,
    ApplicationSensmlExi,
    /// Media-Type: `application/yang-data+cbor; id=sid`, ID: 140
    ApplicationYangDataCborSid,
    ApplicationCoapGroupJson,
    ApplicationDotsCbor,
    ApplicationMissingBlocksCborSeq,
    /// Media-Type: `application/pkcs7-mime; smime-type=server-generated-key`, ID: 280
    ApplicationPkcs7MimeServerGeneratedKey,
    /// Media-Type: `application/pkcs7-mime; smime-type=certs-only`, ID: 281
    ApplicationPkcs7MimeCertsOnly,
    ApplicationPkcs8,
    ApplicationCsrattrs,
    ApplicationPkcs10,
    ApplicationPkixCert,
    ApplicationAifCbor,
    ApplicationAifJson,
    ApplicationSenmlXML,
    ApplicationSensmlXML,
    ApplicationSenmlEtchJson,
    ApplicationSenmlEtchCbor,
    ApplicationYangDataCbor,
    /// Media-Type: `application/yang-data+cbor; id=name`, ID: 341
    ApplicationYangDataCborName,
    ApplicationTdJson,
    ApplicationVoucherCoseCbor,
    ApplicationVndOcfCbor,
    ApplicationOscore,
    ApplicationJavascript,
    ApplicationJsonDeflate,
    ApplicationCborDeflate,
    ApplicationVndOmaLwm2mTlv,
    ApplicationVndOmaLwm2mJson,
    ApplicationVndOmaLwm2mCbor,
    TextCss,
    ImageSvgXml,
}

/// The registered number of a content format.
pub open spec fn content_format_number(format: ContentFormat) -> usize {
    match format {
        ContentFormat::TextPlain => 0,
        ContentFormat::ApplicationCoseEncrypt0 => 16,
        ContentFormat::ApplicationCoseMac0 => 17,
        ContentFormat::ApplicationCoseSign1 => 18,
        ContentFormat::ApplicationAceCbor => 19,
        ContentFormat::ImageGif => 21,
        ContentFormat::ImageJpeg => 22,
        ContentFormat::ImagePng => 23,
        ContentFormat::ApplicationLinkFormat => 40,
        ContentFormat::ApplicationXML => 41,
        ContentFormat::ApplicationOctetStream => 42,
        ContentFormat::ApplicationEXI => 47,
        ContentFormat::ApplicationJSON => 50,
        ContentFormat::ApplicationJsonPatchJson => 51,
        ContentFormat::ApplicationMergePatchJson => 52,
        ContentFormat::ApplicationCBOR => 60,
        ContentFormat::ApplicationCWt => 61,
        ContentFormat::ApplicationMultipartCore => 62,
        ContentFormat::ApplicationCborSeq => 63,
        ContentFormat::ApplicationCoseEncrypt => 96,
        ContentFormat::ApplicationCoseMac => 97,
        ContentFormat::ApplicationCoseSign => 98,
        ContentFormat::ApplicationCoseKey => 101,
        ContentFormat::ApplicationCoseKeySet => 102,
        ContentFormat::ApplicationSenmlJSON => 110,
        ContentFormat::ApplicationSensmlJSON => 111,
        ContentFormat::ApplicationSenmlCBOR => 112,
        ContentFormat::ApplicationSensmlCBOR => 113,
        ContentFormat::ApplicationSenmlExi => 114,
        ContentFormat::ApplicationSensmlExi => 115,
        ContentFormat::ApplicationYangDataCborSid => 140,
        ContentFormat::ApplicationCoapGroupJson => 256,
        ContentFormat::ApplicationDotsCbor => 271,
        ContentFormat::ApplicationMissingBlocksCborSeq => 272,
        ContentFormat::ApplicationPkcs7MimeServerGeneratedKey => 280,
        ContentFormat::ApplicationPkcs7MimeCertsOnly => 281,
        ContentFormat::ApplicationPkcs8 => 284,
        ContentFormat::ApplicationCsrattrs => 285,
        ContentFormat::ApplicationPkcs10 => 286,
        ContentFormat::ApplicationPkixCert => 287,
        ContentFormat::ApplicationAifCbor => 290,
        ContentFormat::ApplicationAifJson => 291,
        ContentFormat::ApplicationSenmlXML => 310,
        ContentFormat::ApplicationSensmlXML => 311,
        ContentFormat::ApplicationSenmlEtchJson => 320,
        ContentFormat::ApplicationSenmlEtchCbor => 322,
        ContentFormat::ApplicationYangDataCbor => 340,
        ContentFormat::ApplicationYangDataCborName => 341,
        ContentFormat::ApplicationTdJson => 432,
        ContentFormat::ApplicationVoucherCoseCbor => 836,
        ContentFormat::ApplicationVndOcfCbor => 10000,
        ContentFormat::ApplicationOscore => 10001,
        ContentFormat::ApplicationJavascript => 10002,
        ContentFormat::ApplicationJsonDeflate => 11050,
        ContentFormat::ApplicationCborDeflate => 11060,
        ContentFormat::ApplicationVndOmaLwm2mTlv => 11542,
        ContentFormat::ApplicationVndOmaLwm2mJson => 11543,
        ContentFormat::ApplicationVndOmaLwm2mCbor => 11544,
        ContentFormat::TextCss => 20000,
        ContentFormat::ImageSvgXml => 30000,
    }
}

/// The content format registered under a number, if there is one.
pub open spec fn content_format_of(number: usize) -> Option<ContentFormat> {
    if exists|format: ContentFormat| content_format_number(format) == number {
        Some(choose|format: ContentFormat| content_format_number(format) == number)
    } else {
        None
    }
}

impl TryFrom<usize> for ContentFormat {
    type Error = InvalidContentFormat;

    fn try_from(number: usize) -> (r: Result<ContentFormat, InvalidContentFormat>) {
        let r = match number {
            0 => Ok(ContentFormat::TextPlain),
            16 => Ok(ContentFormat::ApplicationCoseEncrypt0),
            17 => Ok(ContentFormat::ApplicationCoseMac0),
            18 => Ok(ContentFormat::ApplicationCoseSign1),
            19 => Ok(ContentFormat::ApplicationAceCbor),
            21 => Ok(ContentFormat::ImageGif),
            22 => Ok(ContentFormat::ImageJpeg),
            23 => Ok(ContentFormat::ImagePng),
            40 => Ok(ContentFormat::ApplicationLinkFormat),
            41 => Ok(ContentFormat::ApplicationXML),
            42 => Ok(ContentFormat::ApplicationOctetStream),
            47 => Ok(ContentFormat::ApplicationEXI),
            50 => Ok(ContentFormat::ApplicationJSON),
            51 => Ok(ContentFormat::ApplicationJsonPatchJson),
            52 => Ok(ContentFormat::ApplicationMergePatchJson),
            60 => Ok(ContentFormat::ApplicationCBOR),
            61 => Ok(ContentFormat::ApplicationCWt),
            62 => Ok(ContentFormat::ApplicationMultipartCore),
            63 => Ok(ContentFormat::ApplicationCborSeq),
            96 => Ok(ContentFormat::ApplicationCoseEncrypt),
            97 => Ok(ContentFormat::ApplicationCoseMac),
            98 => Ok(ContentFormat::ApplicationCoseSign),
            101 => Ok(ContentFormat::ApplicationCoseKey),
            102 => Ok(ContentFormat::ApplicationCoseKeySet),
            110 => Ok(ContentFormat::ApplicationSenmlJSON),
            111 => Ok(ContentFormat::ApplicationSensmlJSON),
            112 => Ok(ContentFormat::ApplicationSenmlCBOR),
            113 => Ok(ContentFormat::ApplicationSensmlCBOR),
            114 => Ok(ContentFormat::ApplicationSenmlExi),
            115 => Ok(ContentFormat::ApplicationSensmlExi),
            140 => Ok(ContentFormat::ApplicationYangDataCborSid),
            256 => Ok(ContentFormat::ApplicationCoapGroupJson),
            271 => Ok(ContentFormat::ApplicationDotsCbor),
            272 => Ok(ContentFormat::ApplicationMissingBlocksCborSeq),
            280 => Ok(ContentFormat::ApplicationPkcs7MimeServerGeneratedKey),
            281 => Ok(ContentFormat::ApplicationPkcs7MimeCertsOnly),
            284 => Ok(ContentFormat::ApplicationPkcs8),
            285 => Ok(ContentFormat::ApplicationCsrattrs),
            286 => Ok(ContentFormat::ApplicationPkcs10),
            287 => Ok(ContentFormat::ApplicationPkixCert),
            290 => Ok(ContentFormat::ApplicationAifCbor),
            291 => Ok(ContentFormat::ApplicationAifJson),
            310 => Ok(ContentFormat::ApplicationSenmlXML),
            311 => Ok(ContentFormat::ApplicationSensmlXML),
            320 => Ok(ContentFormat::ApplicationSenmlEtchJson),
            322 => Ok(ContentFormat::ApplicationSenmlEtchCbor),
            340 => Ok(ContentFormat::ApplicationYangDataCbor),
            341 => Ok(ContentFormat::ApplicationYangDataCborName),
            432 => Ok(ContentFormat::ApplicationTdJson),
            836 => Ok(ContentFormat::ApplicationVoucherCoseCbor),
            10000 => Ok(ContentFormat::ApplicationVndOcfCbor),
            10001 => Ok(ContentFormat::ApplicationOscore),
            10002 => Ok(ContentFormat::ApplicationJavascript),
            11050 => Ok(ContentFormat::ApplicationJsonDeflate),
            11060 => Ok(ContentFormat::ApplicationCborDeflate),
            11542 => Ok(ContentFormat::ApplicationVndOmaLwm2mTlv),
            11543 => Ok(ContentFormat::ApplicationVndOmaLwm2mJson),
            11544 => Ok(ContentFormat::ApplicationVndOmaLwm2mCbor),
            20000 => Ok(ContentFormat::TextCss),
            30000 => Ok(ContentFormat::ImageSvgXml),
            _ => Err(InvalidContentFormat),
        };
        proof {
            match r {
                Ok(format) => {
                    assert(content_format_number(format) == number);
                    lemma_content_format_distinct(
                        choose|other: ContentFormat| content_format_number(other) == number,
                        format,
                    );
                },
                Err(_) => {
                    assert forall|format: ContentFormat|
                        content_format_number(format) != number by {}
                },
            }
        }
        r
    }
}

impl TryFromSpecImpl<usize> for ContentFormat {
    open spec fn obeys_try_from_spec() -> bool {
        true
    }

    open spec fn try_from_spec(number: usize) -> Result<ContentFormat, InvalidContentFormat> {
        match content_format_of(number) {
            Some(format) => Ok(format),
            None => Err(InvalidContentFormat),
        }
    }
}

impl From<ContentFormat> for usize {
    fn from(format: ContentFormat) -> (number: usize) {
        match format {
            ContentFormat::TextPlain => 0,
            ContentFormat::ApplicationCoseEncrypt0 => 16,
            ContentFormat::ApplicationCoseMac0 => 17,
            ContentFormat::ApplicationCoseSign1 => 18,
            ContentFormat::ApplicationAceCbor => 19,
            ContentFormat::ImageGif => 21,
            ContentFormat::ImageJpeg => 22,
            ContentFormat::ImagePng => 23,
            ContentFormat::ApplicationLinkFormat => 40,
            ContentFormat::ApplicationXML => 41,
            ContentFormat::ApplicationOctetStream => 42,
            ContentFormat::ApplicationEXI => 47,
            ContentFormat::ApplicationJSON => 50,
            ContentFormat::ApplicationJsonPatchJson => 51,
            ContentFormat::ApplicationMergePatchJson => 52,
            ContentFormat::ApplicationCBOR => 60,
            ContentFormat::ApplicationCWt => 61,
            ContentFormat::ApplicationMultipartCore => 62,
            ContentFormat::ApplicationCborSeq => 63,
            ContentFormat::ApplicationCoseEncrypt => 96,
            ContentFormat::ApplicationCoseMac => 97,
            ContentFormat::ApplicationCoseSign => 98,
            ContentFormat::ApplicationCoseKey => 101,
            ContentFormat::ApplicationCoseKeySet => 102,
            ContentFormat::ApplicationSenmlJSON => 110,
            ContentFormat::ApplicationSensmlJSON => 111,
            ContentFormat::ApplicationSenmlCBOR => 112,
            ContentFormat::ApplicationSensmlCBOR => 113,
            ContentFormat::ApplicationSenmlExi => 114,
            ContentFormat::ApplicationSensmlExi => 115,
            ContentFormat::ApplicationYangDataCborSid => 140,
            ContentFormat::ApplicationCoapGroupJson => 256,
            ContentFormat::ApplicationDotsCbor => 271,
            ContentFormat::ApplicationMissingBlocksCborSeq => 272,
            ContentFormat::ApplicationPkcs7MimeServerGeneratedKey => 280,
            ContentFormat::ApplicationPkcs7MimeCertsOnly => 281,
            ContentFormat::ApplicationPkcs8 => 284,
            ContentFormat::ApplicationCsrattrs => 285,
            ContentFormat::ApplicationPkcs10 => 286,
            ContentFormat::ApplicationPkixCert => 287,
            ContentFormat::ApplicationAifCbor => 290,
            ContentFormat::ApplicationAifJson => 291,
            ContentFormat::ApplicationSenmlXML => 310,
            ContentFormat::ApplicationSensmlXML => 311,
            ContentFormat::ApplicationSenmlEtchJson => 320,
            ContentFormat::ApplicationSenmlEtchCbor => 322,
            ContentFormat::ApplicationYangDataCbor => 340,
            ContentFormat::ApplicationYangDataCborName => 341,
            ContentFormat::ApplicationTdJson => 432,
            ContentFormat::ApplicationVoucherCoseCbor => 836,
            ContentFormat::ApplicationVndOcfCbor => 10000,
            ContentFormat::ApplicationOscore => 10001,
            ContentFormat::ApplicationJavascript => 10002,
            ContentFormat::ApplicationJsonDeflate => 11050,
            ContentFormat::ApplicationCborDeflate => 11060,
            ContentFormat::ApplicationVndOmaLwm2mTlv => 11542,
            ContentFormat::ApplicationVndOmaLwm2mJson => 11543,
            ContentFormat::ApplicationVndOmaLwm2mCbor => 11544,
            ContentFormat::TextCss => 20000,
            ContentFormat::ImageSvgXml => 30000,
        }
    }
}

impl FromSpecImpl<ContentFormat> for usize {
    open spec fn obeys_from_spec() -> bool {
        true
    }

    open spec fn from_spec(format: ContentFormat) -> usize {
        content_format_number(format)
    }
}

/// No two content formats share a number.
pub proof fn lemma_content_format_distinct(a: ContentFormat, b: ContentFormat)
    requires
        content_format_number(a) == content_format_number(b),
    ensures
        a == b,
{
}

/// The format registered under the number of a format is that format, and
/// every such number fits sixteen bits.
pub proof fn lemma_content_format_round_trip(format: ContentFormat)
    ensures
        content_format_of(content_format_number(format)) == Some(format),
        content_format_number(format) <= 0xFFFF,
{
    lemma_content_format_distinct(
        choose|other: ContentFormat| content_format_number(other) == content_format_number(format),
        format,
    );
}

/// The values of the observe option.
#[derive(Debug, Clone, Copy, PartialEq, Eq, Structural)]
pub enum ObserveOption {
    Register,
    Deregister,
}

/// The flag that a number stands for: 0 registers, 1 deregisters.
pub open spec fn observe_option_of(number: usize) -> Option<ObserveOption> {
    if number == 0 {
        Some(ObserveOption::Register)
    } else if number == 1 {
        Some(ObserveOption::Deregister)
    } else {
        None
    }
}

/// The number of an observe flag.
pub open spec fn observe_option_number(observe: ObserveOption) -> usize {
    match observe {
        ObserveOption::Register => 0,
        ObserveOption::Deregister => 1,
    }
}

impl TryFrom<usize> for ObserveOption {
    type Error = InvalidObserve;

    fn try_from(number: usize) -> (r: Result<ObserveOption, InvalidObserve>) {
        match number {
            0 => Ok(ObserveOption::Register),
            1 => Ok(ObserveOption::Deregister),
            _ => Err(InvalidObserve),
        }
    }
}

impl TryFromSpecImpl<usize> for ObserveOption {
    open spec fn obeys_try_from_spec() -> bool {
        true
    }

    open spec fn try_from_spec(number: usize) -> Result<ObserveOption, InvalidObserve> {
        match observe_option_of(number) {
            Some(observe) => Ok(observe),
            None => Err(InvalidObserve),
        }
    }
}

impl From<ObserveOption> for usize {
    fn from(observe: ObserveOption) -> (number: usize) {
        match observe {
            ObserveOption::Register => 0,
            ObserveOption::Deregister => 1,
        }
    }
}

impl FromSpecImpl<ObserveOption> for usize {
    open spec fn obeys_from_spec() -> bool {
        true
    }

    open spec fn from_spec(observe: ObserveOption) -> usize {
        observe_option_number(observe)
    }
}


/// The CoAP packet.
#[derive(Debug, PartialEq)]
pub struct Packet {
    pub header: Header,
    /// The token; `set_token` keeps the header's token length in step.
    pub token: Vec<u8>,
    pub options: OptionMap,
    pub payload: Vec<u8>,
}

impl View for Packet {
    type V = PacketView;

    open spec fn view(&self) -> PacketView {
        PacketView {
            header: self.header,
            token: self.token@,
            options: self.options@,
            payload: self.payload@,
        }
    }
}

/// The first value recorded for `number`, if there is any.
pub open spec fn first_value(entries: Seq<(u16, Seq<Seq<u8>>)>, number: u16) -> Option<Seq<u8>> {
    match lookup(entries, number) {
        Some(values) => if values.len() > 0 {
            Some(values[0])
        } else {
            None
        },
        None => None,
    }
}

/// The size on the wire of header, token and options.
pub open spec fn size_without_payload(p: PacketView) -> nat {
    4 + p.token.len() + encode_options(flatten(p.options)).len()
}

/// The size of a message on the wire is that of header, token and options,
/// and of marker and payload where the payload is written.
pub proof fn lemma_encoded_size(p: PacketView)
    ensures
        encode_packet(p).len() == size_without_payload(p) + (if payload_is_written(p) {
            1 + p.payload.len()
        } else {
            0
        }),
        encode_packet(PacketView { payload: Seq::empty(), ..p }).len() == size_without_payload(p),
{
    assert(p.header.bytes().len() == 4);
}

/// The largest encoded size that a limit admits: the limit itself, or any
/// size that the machine can hold where there is none.
pub open spec fn size_limit(limit: Option<usize>) -> int {
    match limit {
        Some(limit) => limit as int,
        None => usize::MAX as int,
    }
}

/// What the items read so far and the outcome of reading the rest make
/// together.
pub open spec fn items_then(
    items: Seq<(u16, Seq<u8>)>,
    rest: Result<(Seq<(u16, Seq<u8>)>, int), MessageError>,
) -> Result<(Seq<(u16, Seq<u8>)>, int), MessageError> {
    match rest {
        Err(e) => Err(e),
        Ok((more, end)) => Ok((items + more, end)),
    }
}

/// Appends the bytes of `src` to `dst`.
fn append_bytes(dst: &mut Vec<u8>, src: &[u8])
    ensures
        final(dst)@ == old(dst)@ + src@,
{
    let mut k: usize = 0;
    while k < src.len()
        invariant
            k <= src@.len(),
            dst@ == old(dst)@ + src@.subrange(0, k as int),
        decreases src@.len() - k,
    {
        dst.push(src[k]);
        assert(dst@ =~= old(dst)@ + src@.subrange(0, k + 1));
        k = k + 1;
    }
    assert(src@.subrange(0, k as int) =~= src@);
}

/// Appends one option to `options_bytes`: the leading byte, the extensions
/// of delta and length, and the value.
fn append_option(options_bytes: &mut Vec<u8>, delta: u16, value: &Vec<u8>)
    ensures
        final(options_bytes)@ == old(options_bytes)@ + encode_option(delta as int, value@),
{
    let ghost start = options_bytes@;
    let delta_nibble: u8 = if delta <= 12 {
        delta as u8
    } else if delta < 269 {
        13
    } else {
        14
    };
    let length_nibble: u8 = if value.len() <= 12 {
        value.len() as u8
    } else if value.len() < 269 {
        13
    } else {
        14
    };
    options_bytes.push(delta_nibble * 16 + length_nibble);

    if delta > 12 && delta < 269 {
        options_bytes.push((delta - 13) as u8);
    } else if delta >= 269 {
        let fix = delta - 269;
        options_bytes.push(((fix / 256) % 256) as u8);
        options_bytes.push((fix % 256) as u8);
    }
    assert(options_bytes@ =~= start + seq![
        (field_nibble(delta as int) * 16 + field_nibble(value@.len() as int)) as u8,
    ] + field_extension(delta as int));

    if value.len() > 12 && value.len() < 269 {
        options_bytes.push((value.len() - 13) as u8);
    } else if value.len() >= 269 {
        let fix = value.len() - 269;
        options_bytes.push(((fix / 256) % 256) as u8);
        options_bytes.push((fix % 256) as u8);
    }
    assert(options_bytes@ =~= start + seq![
        (field_nibble(delta as int) * 16 + field_nibble(value@.len() as int)) as u8,
    ] + field_extension(delta as int) + field_extension(value@.len() as int));

    append_bytes(options_bytes, value.as_slice());
    assert(options_bytes@ =~= start + encode_option(delta as int, value@));
}

/// Reads the option that starts at `index`, after an option numbered
/// `number`: its number, where its value starts and where it ends.
fn read_option(buf: &[u8], index: usize, number: u16) -> (r: Result<
    (u16, usize, usize),
    MessageError,
>)
    requires
        index < buf@.len(),
    ensures
        match parse_option(buf@, index as int, number as int) {
            Ok((next_number, value, next_index)) => r matches Ok((n, at_value, end)) && n
                == next_number && end == next_index && index < at_value <= end <= buf@.len()
                && value == buf@.subrange(at_value as int, end as int),
            Err(e) => r == Err::<(u16, usize, usize), MessageError>(e),
        },
{
    let byte = buf[index];
    let mut delta: u32 = (byte / 16) as u32;
    let mut length: usize = (byte % 16) as usize;
    let mut idx: usize = index + 1;

    // Check for special delta characters
    if delta == 13 {
        if idx >= buf.len() {
            return Err(MessageError::InvalidOptionLength);
        }
        delta = buf[idx] as u32 + 13;
        idx += 1;
    } else if delta == 14 {
        if buf.len() - idx < 2 {
            return Err(MessageError::InvalidOptionLength);
        }
        delta = buf[idx] as u32 * 256 + buf[idx + 1] as u32 + 269;
        if delta > 65535 {
            return Err(MessageError::InvalidOptionDelta);
        }
        idx += 2;
    } else if delta == 15 {
        return Err(MessageError::InvalidOptionDelta);
    }

    // Check for special length characters
    if length == 13 {
        if idx >= buf.len() {
            return Err(MessageError::InvalidOptionLength);
        }
        length = buf[idx] as usize + 13;
        idx += 1;
    } else if length == 14 {
        if buf.len() - idx < 2 {
            return Err(MessageError::InvalidOptionLength);
        }
        length = buf[idx] as usize * 256 + buf[idx + 1] as usize + 269;
        idx += 2;
    } else if length == 15 {
        return Err(MessageError::InvalidOptionLength);
    }

    if number as u32 + delta > 65535 {
        return Err(MessageError::InvalidOptionDelta);
    }
    let next_number: u16 = (number as u32 + delta) as u16;

    if length > buf.len() - idx {
        return Err(MessageError::InvalidOptionLength);
    }
    Ok((next_number, idx, idx + length))
}

impl Default for Packet {
    /// A message with the default header, no token, no options and no
    /// payload.
    fn default() -> (p: Packet)
        ensures
            p@ == Packet::new_view(),
    {
        Packet {
            header: Header::new(),
            token: Vec::new(),
            options: OptionMap::new(),
            payload: Vec::new(),
        }
    }
}

impl Clone for Packet {
    fn clone(&self) -> (copy: Packet)
        ensures
            copy@ == self@,
    {
        Packet {
            header: self.header,
            token: self.token.clone(),
            options: self.options.clone(),
            payload: self.payload.clone(),
        }
    }
}

impl Packet {
    /// Maximum allowed packet size. By default limited to 1280 so that CoAP
    /// packets can be sent over TCP or UDP.
    pub const MAX_SIZE: usize = 1280;


    /// The message that a new packet is: version 1, Confirmable, GET, message
    /// id 0, and nothing else.
    pub open spec fn new_view() -> PacketView {
        PacketView {
            header: Header::spec_new(
                0x40,
                MessageClass::Request(crate::header::RequestType::Get),
                0,
            ),
            token: Seq::empty(),
            options: Seq::empty(),
            payload: Seq::empty(),
        }
    }

    /// Creates a new packet.
    pub fn new() -> (p: Packet)
        ensures
            p@ == Packet::new_view(),
    {
        Packet::default()
    }

    /// Returns the options of the packet, in ascending order of their
    /// numbers.
    pub fn options(&self) -> (options: &OptionMap)
        ensures
            options@ == self.options@,
    {
        &self.options
    }

    /// Sets the token, and the token length of the header with it.
    pub fn set_token(&mut self, token: Vec<u8>)
        requires
            token@.len() < 16,
        ensures
            final(self).token@ == token@,
            final(self).header == old(self).header.with_token_length(token@.len() as u8),
            final(self).header.token_length() == token@.len(),
            final(self).header.version() == old(self).header.version(),
            final(self).header.message_type() == old(self).header.message_type(),
            final(self).header.code == old(self).header.code,
            final(self).header.message_id == old(self).header.message_id,
            final(self).options@ == old(self).options@,
            final(self).payload@ == old(self).payload@,
    {
        self.header.set_token_length(token.len() as u8);
        self.token = token;
    }

    /// Returns the token.
    pub fn get_token(&self) -> (token: &[u8])
        ensures
            token@ == self.token@,
    {
        self.token.as_slice()
    }

    /// Sets an option's values.
    pub fn set_option(&mut self, tp: CoapOption, value: Vec<Vec<u8>>)
        ensures
            final(self).options@ == with_set(
                old(self).options@,
                option_number(tp),
                values_view(value),
            ),
            final(self).header == old(self).header,
            final(self).token@ == old(self).token@,
            final(self).payload@ == old(self).payload@,
    {
        self.options.set(u16::from(tp), value);
    }

    /// Sets an option's values using a structured option value format.
    pub fn set_options_as<T: OptionValueType>(&mut self, tp: CoapOption, value: Vec<T>)
        ensures
            final(self).options@ == with_set(
                old(self).options@,
                option_number(tp),
                Seq::new(value@.len(), |j: int| value@[j].encoding()),
            ),
            final(self).header == old(self).header,
            final(self).token@ == old(self).token@,
            final(self).payload@ == old(self).payload@,
    {
        let ghost wanted = Seq::new(value@.len(), |j: int| value@[j].encoding());
        let mut remaining = value;
        let mut backwards: Vec<Vec<u8>> = Vec::new();
        while remaining.len() > 0
            invariant
                remaining@.len() <= value@.len(),
                remaining@ == value@.subrange(0, remaining@.len() as int),
                backwards@.len() == value@.len() - remaining@.len(),
                forall|k: int|
                    0 <= k < backwards@.len() ==> backwards@[k]@ == value@[value@.len() - 1
                        - k].encoding(),
            decreases remaining@.len(),
        {
            let ghost before = remaining@;
            match remaining.pop() {
                Some(x) => {
                    assert(x == before[before.len() - 1]);
                    assert(remaining@ =~= value@.subrange(0, remaining@.len() as int));
                    backwards.push(x.into_bytes());
                },
                None => {},
            }
        }
        let mut raw_value: Vec<Vec<u8>> = Vec::new();
        while backwards.len() > 0
            invariant
                backwards@.len() <= value@.len(),
                raw_value@.len() == value@.len() - backwards@.len(),
                forall|k: int|
                    0 <= k < backwards@.len() ==> backwards@[k]@ == value@[value@.len() - 1
                        - k].encoding(),
                forall|k: int| 0 <= k < raw_value@.len() ==> raw_value@[k]@ == value@[k].encoding(),
            decreases backwards@.len(),
        {
            match backwards.pop() {
                Some(bytes) => {
                    raw_value.push(bytes);
                },
                None => {},
            }
        }
        assert(values_view(raw_value) =~= wanted);
        self.set_option(tp, raw_value);
    }

    /// Returns an option's values.
    pub fn get_option(&self, tp: CoapOption) -> (r: Option<&Vec<Vec<u8>>>)
        ensures
            match r {
                Some(values) => lookup(self.options@, option_number(tp)) == Some(
                    values_view(*values),
                ),
                None => lookup(self.options@, option_number(tp)) is None,
            },
    {
        self.options.get(u16::from(tp))
    }

    /// Returns an option's values all decoded using the specified structured
    /// option value format.
    pub fn get_options_as<T: OptionValueType>(&self, tp: CoapOption) -> (r: Option<
        Vec<Result<T, IncompatibleOptionValueFormat>>,
    >)
        ensures
            r is Some <==> lookup(self.options@, option_number(tp)) is Some,
            r matches Some(decoded) ==> {
                let values = lookup(self.options@, option_number(tp))->0;
                &&& decoded@.len() == values.len()
                &&& forall|j: int|
                    0 <= j < values.len() ==> ((#[trigger] decoded@[j]) is Ok <==> T::decodes(
                        values[j],
                    ))
                &&& forall|j: int|
                    0 <= j < values.len() ==> ((#[trigger] decoded@[j]) matches Ok(v)
                        ==> v.is_decoding_of(values[j]))
                &&& forall|j: int|
                    0 <= j < values.len() ==> ((#[trigger] decoded@[j]) matches Err(e)
                        ==> e.message@ == T::fault_text(values[j]))
            },
    {
        match self.get_option(tp) {
            Some(options) => {
                let ghost values = values_view(*options);
                let mut decoded: Vec<Result<T, IncompatibleOptionValueFormat>> = Vec::new();
                let mut j: usize = 0;
                while j < options.len()
                    invariant
                        j <= options@.len(),
                        values == values_view(*options),
                        decoded@.len() == j,
                        forall|k: int|
                            0 <= k < j ==> ((#[trigger] decoded@[k]) is Ok <==> T::decodes(
                                values[k],
                            )),
                        forall|k: int|
                            0 <= k < j ==> ((#[trigger] decoded@[k]) matches Ok(v)
                                ==> v.is_decoding_of(values[k])),
                        forall|k: int|
                            0 <= k < j ==> ((#[trigger] decoded@[k]) matches Err(e)
                                ==> e.message@ == T::fault_text(values[k])),
                    decreases options@.len() - j,
                {
                    decoded.push(T::try_from_bytes(options[j].clone()));
                    j = j + 1;
                }
                Some(decoded)
            },
            None => None,
        }
    }

    /// Returns an option's first value as a convenience when only one is
    /// expected.
    pub fn get_first_option(&self, tp: CoapOption) -> (r: Option<&Vec<u8>>)
        ensures
            match r {
                Some(value) => first_value(self.options@, option_number(tp)) == Some(value@),
                None => first_value(self.options@, option_number(tp)) is None,
            },
    {
        match self.options.get(u16::from(tp)) {
            Some(options) => {
                if options.len() > 0 {
                    Some(&options[0])
                } else {
                    None
                }
            },
            None => None,
        }
    }

    /// Returns an option's first value as a convenience when only one is
    /// expected.
    pub fn get_first_option_as<T: OptionValueType>(&self, tp: CoapOption) -> (r: Option<
        Result<T, IncompatibleOptionValueFormat>,
    >)
        ensures
            r is Some <==> first_value(self.options@, option_number(tp)) is Some,
            r matches Some(decoded) ==> {
                let value = first_value(self.options@, option_number(tp))->0;
                &&& decoded is Ok <==> T::decodes(value)
                &&& decoded matches Ok(v) ==> v.is_decoding_of(value)
                &&& decoded matches Err(e) ==> e.message@ == T::fault_text(value)
            },
    {
        match self.get_first_option(tp) {
            Some(value) => Some(T::try_from_bytes(value.clone())),
            None => None,
        }
    }

    /// Adds an option value.
    pub fn add_option(&mut self, tp: CoapOption, value: Vec<u8>)
        ensures
            final(self).options@ == with_added(old(self).options@, option_number(tp), value@),
            final(self).header == old(self).header,
            final(self).token@ == old(self).token@,
            final(self).payload@ == old(self).payload@,
    {
        let num = u16::from(tp);
        self.options.add(num, value);
    }

    /// Adds an option value using a structured option value format.
    pub fn add_option_as<T: OptionValueType>(&mut self, tp: CoapOption, value: T)
        ensures
            final(self).options@ == with_added(
                old(self).options@,
                option_number(tp),
                value.encoding(),
            ),
            final(self).header == old(self).header,
            final(self).token@ == old(self).token@,
            final(self).payload@ == old(self).payload@,
    {
        self.add_option(tp, value.into_bytes());
    }

    /// Removes an option's values.
    pub fn clear_option(&mut self, tp: CoapOption)
        ensures
            final(self).options@ == with_cleared(old(self).options@, option_number(tp)),
            final(self).header == old(self).header,
            final(self).token@ == old(self).token@,
            final(self).payload@ == old(self).payload@,
    {
        self.options.clear(u16::from(tp));
    }

    /// Removes all options.
    pub fn clear_all_options(&mut self)
        ensures
            final(self).options@ == Seq::<(u16, Seq<Seq<u8>>)>::empty(),
            final(self).header == old(self).header,
            final(self).token@ == old(self).token@,
            final(self).payload@ == old(self).payload@,
    {
        self.options.clear_all()
    }

    /// Sets the content-format.
    pub fn set_content_format(&mut self, cf: ContentFormat)
        ensures
            final(self).options@ == with_added(
                old(self).options@,
                option_number(CoapOption::ContentFormat),
                be_minimal(content_format_number(cf) as nat),
            ),
            final(self).header == old(self).header,
            final(self).token@ == old(self).token@,
            final(self).payload@ == old(self).payload@,
    {
        proof {
            lemma_content_format_round_trip(cf);
        }
        let content_format: u16 = usize::from(cf) as u16;
        self.add_option_as(CoapOption::ContentFormat, OptionValueU16(content_format));
    }

    /// Returns the content-format: that of the first value of the option,
    /// where it is at most two bytes long and spells a registered number.
    pub fn get_content_format(&self) -> (r: Option<ContentFormat>)
        ensures
            r == match first_value(self.options@, option_number(CoapOption::ContentFormat)) {
                Some(value) => if value.len() <= 2 {
                    content_format_of(be_value(value) as usize)
                } else {
                    None
                },
                None => None,
            },
    {
        match self.get_first_option_as::<OptionValueU16>(CoapOption::ContentFormat) {
            Some(Ok(value)) => {
                match ContentFormat::try_from(value.0 as usize) {
                    Ok(format) => Some(format),
                    Err(_) => None,
                }
            },
            _ => None,
        }
    }

    /// Sets the value of the observe option, in place of any it had.
    pub fn set_observe_value(&mut self, value: u32)
        ensures
            final(self).options@ == with_added(
                with_cleared(old(self).options@, option_number(CoapOption::Observe)),
                option_number(CoapOption::Observe),
                be_minimal(value as nat),
            ),
            final(self).header == old(self).header,
            final(self).token@ == old(self).token@,
            final(self).payload@ == old(self).payload@,
    {
        self.clear_option(CoapOption::Observe);
        self.add_option_as(CoapOption::Observe, OptionValueU32(value));
    }

    /// Sets the observe option to the given bytes, in place of any it had.
    pub fn set_observe(&mut self, value: Vec<u8>)
        ensures
            final(self).options@ == with_added(
                with_cleared(old(self).options@, option_number(CoapOption::Observe)),
                option_number(CoapOption::Observe),
                value@,
            ),
            final(self).header == old(self).header,
            final(self).token@ == old(self).token@,
            final(self).payload@ == old(self).payload@,
    {
        self.clear_option(CoapOption::Observe);
        self.add_option(CoapOption::Observe, value);
    }

    /// Returns the value of the observe option: that of its first value,
    /// which has to be at most four bytes long.
    pub fn get_observe_value(&self) -> (r: Option<Result<u32, IncompatibleOptionValueFormat>>)
        ensures
            r is Some <==> first_value(self.options@, option_number(CoapOption::Observe)) is Some,
            r matches Some(observe) ==> {
                let value = first_value(self.options@, option_number(CoapOption::Observe))->0;
                &&& observe is Ok <==> value.len() <= 4
                &&& observe matches Ok(number) ==> number == be_value(value)
                &&& observe matches Err(e) ==> e.message@ == crate::option_value::overflow_message(
                    value.len() as usize,
                    4,
                )
            },
    {
        match self.get_first_option_as::<OptionValueU32>(CoapOption::Observe) {
            Some(Ok(value)) => Some(Ok(value.0)),
            Some(Err(e)) => Some(Err(e)),
            None => None,
        }
    }

    /// Decodes a byte slice and constructs the equivalent packet.
    pub fn from_bytes(buf: &[u8]) -> (r: Result<Packet, MessageError>)
        ensures
            match decode_packet(buf@) {
                Ok(view) => r matches Ok(packet) && packet@ == view,
                Err(e) => r == Err::<Packet, MessageError>(e),
            },
    {
        let header_result = HeaderRaw::try_from(buf);
        match header_result {
            Ok(raw_header) => {
                let header = Header::from_raw(&raw_header);
                let token_length = header.get_token_length();
                let options_start: usize = 4 + token_length as usize;

                if token_length > 8 {
                    return Err(MessageError::InvalidTokenLength);
                }
                if options_start > buf.len() {
                    return Err(MessageError::InvalidTokenLength);
                }
                let token = slice_to_vec(slice_subrange(buf, 4, options_start));

                let mut idx = options_start;
                let mut options_number: u16 = 0;
                let mut options = OptionMap::new();
                let ghost mut items: Seq<(u16, Seq<u8>)> = Seq::empty();
                proof {
                    match parse_options(buf@, idx as int, 0) {
                        Ok((more, end)) => {
                            assert(Seq::<(u16, Seq<u8>)>::empty() + more =~= more);
                        },
                        Err(_) => {},
                    }
                }
                while idx < buf.len() && buf[idx] != 255
                    invariant
                        buf@.len() >= 4,
                        header == Header::parse(buf@),
                        header.token_length() <= 8,
                        options_start == 4 + header.token_length(),
                        options_start <= idx <= buf@.len(),
                        options@ == collect(items),
                        parse_options(buf@, options_start as int, 0) == items_then(
                            items,
                            parse_options(buf@, idx as int, options_number as int),
                        ),
                    decreases buf@.len() - idx,
                {
                    let ghost rest = parse_options(buf@, idx as int, options_number as int);
                    match read_option(buf, idx, options_number) {
                        Ok((number, at_value, end)) => {
                            let options_value = slice_to_vec(slice_subrange(buf, at_value, end));
                            proof {
                                let after = parse_options(buf@, end as int, number as int);
                                let item = (number, options_value@);
                                assert(rest == items_then(seq![item], after));
                                if after is Ok {
                                    assert(items + (seq![item] + after.unwrap().0)
                                        =~= items.push(item) + after.unwrap().0);
                                }
                                assert(items.push(item).drop_last() =~= items);
                                items = items.push(item);
                            }
                            options.add(number, options_value);
                            options_number = number;
                            idx = end;
                        },
                        Err(e) => {
                            assert(rest == Err::<(Seq<(u16, Seq<u8>)>, int), MessageError>(e));
                            return Err(e);
                        },
                    }
                }
                proof {
                    assert(items + Seq::<(u16, Seq<u8>)>::empty() =~= items);
                }

                let payload = if idx < buf.len() {
                    slice_to_vec(slice_subrange(buf, idx + 1, buf.len()))
                } else {
                    Vec::new()
                };

                Ok(Packet { header, token, options, payload })
            },
            Err(_) => Err(MessageError::InvalidHeader),
        }
    }

    /// Returns a vector of bytes representing the Packet, of at most
    /// [`Packet::MAX_SIZE`] bytes.
    pub fn to_bytes(&self) -> (r: Result<Vec<u8>, MessageError>)
        ensures
            r is Err <==> encode_packet(self@).len() > Packet::MAX_SIZE,
            r is Err ==> r == Err::<Vec<u8>, MessageError>(MessageError::InvalidPacketLength),
            r matches Ok(bytes) ==> bytes@ == encode_packet(self@),
    {
        self.to_bytes_internal(Some(Self::MAX_SIZE))
    }

    /// Returns a vector of bytes representing the Packet, using a custom
    /// `limit` instead of [`Packet::MAX_SIZE`] for the message size check.
    pub fn to_bytes_with_limit(&self, limit: usize) -> (r: Result<Vec<u8>, MessageError>)
        ensures
            r is Err <==> encode_packet(self@).len() > limit,
            r is Err ==> r == Err::<Vec<u8>, MessageError>(MessageError::InvalidPacketLength),
            r matches Ok(bytes) ==> bytes@ == encode_packet(self@),
    {
        self.to_bytes_internal(Some(limit))
    }

    /// Returns a vector of bytes representing the Packet, skipping the message
    /// size check against [`Packet::MAX_SIZE`]: only a message that the machine could
    /// not hold is refused.
    pub fn to_bytes_unlimited(&self) -> (r: Result<Vec<u8>, MessageError>)
        ensures
            r is Err <==> encode_packet(self@).len() > usize::MAX,
            r is Err ==> r == Err::<Vec<u8>, MessageError>(MessageError::InvalidPacketLength),
            r matches Ok(bytes) ==> bytes@ == encode_packet(self@),
    {
        self.to_bytes_internal(None)
    }

    /// The size of the message on the wire without its payload and the
    /// marker before it.
    pub fn size_without_payload(&self) -> (size: u128)
        ensures
            size == size_without_payload(self@),
            size <= 4 + 2 * usize::MAX,
    {
        let options_bytes = self.options_to_bytes();
        4 + self.token.len() as u128 + options_bytes.len() as u128
    }

    /// The options on the wire.
    fn options_to_bytes(&self) -> (options_bytes: Vec<u8>)
        ensures
            options_bytes@ == encode_options(flatten(self.options@)),
    {
        let mut options_delta_length: u16 = 0;
        let mut options_bytes: Vec<u8> = Vec::new();
        let count = self.options.len();
        let ghost entries = self.options@;
        let mut i: usize = 0;
        assert(entries.take(0) =~= Seq::<(u16, Seq<Seq<u8>>)>::empty());
        while i < count
            invariant
                i <= count,
                count == entries.len(),
                entries == self.options@,
                crate::option_map::ascending(entries),
                options_bytes@ == encode_options(flatten(entries.take(i as int))),
                options_delta_length == previous_number(
                    flatten(entries.take(i as int)),
                    flatten(entries.take(i as int)).len() as int,
                ),
                forall|k: int| i <= k < count ==> options_delta_length <= entries[k].0,
            decreases count - i,
        {
            let number = self.options.number_at(i);
            let value_list = self.options.values_at(i);
            let ghost values = values_view(*value_list);
            let ghost done = flatten(entries.take(i as int));
            let mut j: usize = 0;
            assert(done + Seq::new(0, |k: int| (number, values[k])) =~= done);
            while j < value_list.len()
                invariant
                    i < count,
                    count == entries.len(),
                    j <= value_list@.len(),
                    values == values_view(*value_list),
                    values == entries[i as int].1,
                    number == entries[i as int].0,
                    crate::option_map::ascending(entries),
                    options_bytes@ == encode_options(
                        done + Seq::new(j as nat, |k: int| (number, values[k])),
                    ),
                    options_delta_length == previous_number(
                        done + Seq::new(j as nat, |k: int| (number, values[k])),
                        done.len() + j,
                    ),
                    options_delta_length <= number,
                decreases value_list@.len() - j,
            {
                let value = &value_list[j];
                let ghost before = done + Seq::new(j as nat, |k: int| (number, values[k]));
                let ghost after = done + Seq::new((j + 1) as nat, |k: int| (number, values[k]));
                let delta = number - options_delta_length;
                proof {
                    assert(after.drop_last() =~= before);
                    assert(after.last() == (number, value@));
                    assert(encode_options(after) == encode_options(before) + encode_option(
                        delta as int,
                        value@,
                    ));
                }
                append_option(&mut options_bytes, delta, value);

                options_delta_length = number;
                j = j + 1;
            }
            proof {
                let next = entries.take(i + 1);
                assert(next.drop_last() =~= entries.take(i as int));
                assert(next.last() == entries[i as int]);
                assert(flatten(next) =~= done + Seq::new(
                    values.len(),
                    |k: int| (number, values[k]),
                ));
            }
            i = i + 1;
        }
        assert(entries.take(i as int) =~= entries);
        options_bytes
    }

    fn to_bytes_internal(&self, limit: Option<usize>) -> (r: Result<Vec<u8>, MessageError>)
        ensures
            r is Err <==> encode_packet(self@).len() > size_limit(limit),
            r is Err ==> r == Err::<Vec<u8>, MessageError>(MessageError::InvalidPacketLength),
            r matches Ok(bytes) ==> bytes@ == encode_packet(self@),
    {
        let options_bytes = self.options_to_bytes();
        let with_payload = self.header.code != MessageClass::Empty && !self.payload.is_empty();

        let mut buf_length: u128 = 4 + self.token.len() as u128;
        if with_payload {
            buf_length += 1 + self.payload.len() as u128;
        }
        buf_length += options_bytes.len() as u128;

        assert(self.header.bytes().len() == 4);
        assert(encode_payload(self@).len() == if with_payload {
            1 + self.payload@.len()
        } else {
            0
        });
        assert(encode_packet(self@).len() == buf_length);
        let bound: usize = match limit {
            Some(limit) => limit,
            None => usize::MAX,
        };
        if buf_length > bound as u128 {
            return Err(MessageError::InvalidPacketLength);
        }
        let mut buf: Vec<u8> = Vec::with_capacity(buf_length as usize);
        let header_result = self.header.to_raw().serialize_with_capacity(
            &mut buf,
            buf_length as usize,
        );

        match header_result {
            Ok(_) => {
                append_bytes(&mut buf, self.token.as_slice());
                append_bytes(&mut buf, options_bytes.as_slice());
                if with_payload {
                    buf.push(0xFF);
                    append_bytes(&mut buf, self.payload.as_slice());
                }
                assert(buf@ =~= encode_packet(self@));
                Ok(buf)
            },
            Err(_) => Err(MessageError::InvalidHeader),
        }
    }
}

} // verus!
