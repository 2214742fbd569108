//! BIP-321 Payjoin URIs for multiparty initiators.
//!
//! Multiparty initiators have no on-chain payment target. BIP-321 allows an empty `bitcoin:` path
//! when other payment instructions are present: here `pj` and `mppj=1`.
use std::borrow::Cow;

use bitcoin_uri_composer::{Bip321, Bip321Errors, Bip321ExtraHandle};

use vstd::prelude::*;
use vstd::string::*;
use vstd::utf8::*;

use crate::text::{
    concat, ends_with, is_white_space, lemma_ends_with, str_equal, trim, trimmed,
};
use crate::uri::{parse_pj, PjModel, PjParam, PjParseError};

verus! {

/// The outside type `bitcoin_uri_composer::Bip321Errors`: why a text is no BIP-321 URI.
#[verifier::external_type_specification]
#[verifier::external_body]
pub struct ExBip321Errors<'a>(bitcoin_uri_composer::Bip321Errors<'a>);

/// The kinds of reasons why a text is no BIP-321 URI.
#[derive(Debug, Clone, Copy, PartialEq, Eq)]
pub enum ComposerFailure {
    DuplicateParam,
    IncorrectSchema,
    InvalidAddress,
    InvalidAmount,
    NoOnePaymentWasFound,
    InvalidEncoding,
    InvalidRequiredPayment,
}

impl ComposerFailure {
    /// What is said of a failure of this kind.
    pub open spec fn spec_message(self) -> Seq<char> {
        match self {
            ComposerFailure::DuplicateParam => "duplicate query parameter"@,
            ComposerFailure::IncorrectSchema => "incorrect bitcoin: URI scheme"@,
            ComposerFailure::InvalidAddress => "invalid address"@,
            ComposerFailure::InvalidAmount => "invalid amount"@,
            ComposerFailure::NoOnePaymentWasFound => "URI has no payment instructions"@,
            ComposerFailure::InvalidEncoding => "invalid percent-encoding"@,
            ComposerFailure::InvalidRequiredPayment => "unsupported required parameter"@,
        }
    }
}

/// Networks that an address can belong to.
#[derive(Debug, Clone, Copy, PartialEq, Eq)]
pub enum Network {
    Bitcoin,
    Testnet,
    Testnet4,
    Signet,
    Regtest,
}

/// Errors when parsing multiparty BIP-321 Payjoin URIs.
#[derive(Debug, Clone, Copy, PartialEq, Eq)]
pub enum MultipartyUriError {
    /// The text is no BIP-321 URI.
    Composer(&'static str),
    /// There is an address.
    UnexpectedAddress,
    /// There is no `pj` parameter.
    MissingPj,
    /// There is no `mppj` parameter.
    MissingMppj,
    /// The `mppj` parameter is not `1`.
    BadMppj,
    /// The `pj` parameter is none.
    Pj(PjParseError),
}

impl MultipartyUriError {
    /// The error for a failure of the given kind.
    pub fn composer(failure: ComposerFailure) -> (r: Self)
        ensures
            r matches MultipartyUriError::Composer(message) && message@ == failure.spec_message(),
    {
        Self::Composer(
            match failure {
                ComposerFailure::DuplicateParam => "duplicate query parameter",
                ComposerFailure::IncorrectSchema => "incorrect bitcoin: URI scheme",
                ComposerFailure::InvalidAddress => "invalid address",
                ComposerFailure::InvalidAmount => "invalid amount",
                ComposerFailure::NoOnePaymentWasFound => "URI has no payment instructions",
                ComposerFailure::InvalidEncoding => "invalid percent-encoding",
                ComposerFailure::InvalidRequiredPayment => "unsupported required parameter",
            },
        )
    }

    /// The message shown for this error.
    pub open spec fn spec_message(self) -> Seq<char> {
        match self {
            MultipartyUriError::Composer(message) => "BIP-321 URI error: "@ + message@,
            MultipartyUriError::UnexpectedAddress =>
                "multiparty URI must not include a bitcoin address"@,
            MultipartyUriError::MissingPj => "missing pj parameter"@,
            MultipartyUriError::MissingMppj => "missing mppj=1 parameter"@,
            MultipartyUriError::BadMppj => "mppj must be 1"@,
            MultipartyUriError::Pj(e) => "invalid pj parameter: "@ + e.spec_message(),
        }
    }

    /// The message shown for this error.
    pub fn message(&self) -> (r: String)
        ensures
            r@ == self.spec_message(),
    {
        match self {
            Self::Composer(message) => concat("BIP-321 URI error: ", message),
            Self::UnexpectedAddress =>
                "multiparty URI must not include a bitcoin address".to_owned(),
            Self::MissingPj => "missing pj parameter".to_owned(),
            Self::MissingMppj => "missing mppj=1 parameter".to_owned(),
            Self::BadMppj => "mppj must be 1".to_owned(),
            Self::Pj(e) => concat("invalid pj parameter: ", &e.message()),
        }
    }
}

/// The query parameters of a BIP-321 URI that multiparty Payjoin reads.
#[derive(Debug, PartialEq, Eq)]
pub struct PayjoinBip321Extras {
    pub pj: Option<String>,
    pub mppj: bool,
    pub bad_mppj: bool,
}

/// What the query parameters say.
pub struct ExtrasModel {
    pub pj: Option<Seq<char>>,
    pub mppj: bool,
    pub bad_mppj: bool,
}

impl View for PayjoinBip321Extras {
    type V = ExtrasModel;

    open spec fn view(&self) -> ExtrasModel {
        ExtrasModel {
            pj: match self.pj {
                Some(s) => Some(s@),
                None => None,
            },
            mppj: self.mppj,
            bad_mppj: self.bad_mppj,
        }
    }
}

impl Default for PayjoinBip321Extras {
    fn default() -> (r: Self)
        ensures
            r@ == (ExtrasModel { pj: None, mppj: false, bad_mppj: false }),
    {
        PayjoinBip321Extras { pj: None, mppj: false, bad_mppj: false }
    }
}

/// The extras after one more parameter, or none where the parameter is a duplicate.
pub open spec fn handled(e: ExtrasModel, key: Seq<char>, values: Seq<Seq<char>>) -> Option<
    ExtrasModel,
> {
    if key == "pj"@ {
        if e.pj is Some || values.len() > 1 {
            None
        } else if values.len() == 1 {
            Some(ExtrasModel { pj: Some(values[0]), ..e })
        } else {
            Some(e)
        }
    } else if key == "mppj"@ {
        if e.mppj || e.bad_mppj || values.len() > 1 {
            None
        } else if values.len() == 0 {
            Some(e)
        } else if values[0] == "1"@ {
            Some(ExtrasModel { mppj: true, ..e })
        } else {
            Some(ExtrasModel { bad_mppj: true, ..e })
        }
    } else {
        Some(e)
    }
}

/// The texts of some values.
pub open spec fn value_texts<'a>(values: Seq<Cow<'a, str>>) -> Seq<Seq<char>> {
    values.map_values(|v: Cow<'a, str>| v@)
}

/// The variant `DuplicateParam` of `bitcoin_uri_composer::Bip321Errors`.
#[verifier::external_body]
fn duplicate_param<'a>(key: &'static str) -> (r: Bip321Errors<'a>)
    ensures
        bip321_error_kind(r) == ComposerFailure::DuplicateParam,
{
    Bip321Errors::DuplicateParam(key)
}

/// Which variant of `bitcoin_uri_composer::Bip321Errors` an error is.
pub uninterp spec fn bip321_error_kind(e: Bip321Errors<'_>) -> ComposerFailure;

/// Which variant of `bitcoin_uri_composer::Bip321Errors` an error is, named `bip321_error_kind`.
#[verifier::external_body]
fn error_kind(e: Bip321Errors<'_>) -> (r: ComposerFailure)
    ensures
        r == bip321_error_kind(e),
{
    match e {
        Bip321Errors::DuplicateParam(_) => ComposerFailure::DuplicateParam,
        Bip321Errors::IncorrectSchema => ComposerFailure::IncorrectSchema,
        Bip321Errors::InvalidAddress(_) => ComposerFailure::InvalidAddress,
        Bip321Errors::InvalidAmount => ComposerFailure::InvalidAmount,
        Bip321Errors::NoOnePaymentWasFound => ComposerFailure::NoOnePaymentWasFound,
        Bip321Errors::InvalidEncoding => ComposerFailure::InvalidEncoding,
        Bip321Errors::InvalidRequiredPayment => ComposerFailure::InvalidRequiredPayment,
    }
}

/// The text of a value.
fn value_text<'a>(v: &Cow<'a, str>) -> (r: String)
    ensures
        r@ == v@,
{
    match v {
        Cow::Borrowed(s) => (*s).to_owned(),
        Cow::Owned(s) => s.clone(),
    }
}

impl<'a> Bip321ExtraHandle<'a> for PayjoinBip321Extras {
    fn handle_param(&mut self, key: &'a str, values: Vec<Cow<'a, str>>) -> (r: Result<
        (),
        Bip321Errors<'a>,
    >)
        ensures
            match handled(old(self)@, key@, value_texts(values@)) {
                Some(e) => r is Ok && final(self)@ == e,
                None => r matches Err(e) && bip321_error_kind(e) == ComposerFailure::DuplicateParam
                    && final(self)@ == old(self)@,
            },
    {
        if str_equal(key, "pj") {
            if self.pj.is_some() || values.len() > 1 {
                return Err(duplicate_param("pj"));
            }
            if values.len() == 1 {
                self.pj = Some(value_text(&values[0]));
            }
            Ok(())
        } else if str_equal(key, "mppj") {
            if self.mppj || self.bad_mppj || values.len() > 1 {
                return Err(duplicate_param("mppj"));
            }
            if values.len() == 1 {
                if str_equal(&value_text(&values[0]), "1") {
                    self.mppj = true;
                } else {
                    self.bad_mppj = true;
                }
            }
            Ok(())
        } else {
            Ok(())
        }
    }

    fn is_empty(&self) -> (r: bool)
        ensures
            r == (self@.pj is None && !self@.mppj && !self@.bad_mppj),
    {
        self.pj.is_none() && !self.mppj && !self.bad_mppj
    }

    fn is_supported_key(&self, key: &str) -> (r: bool)
        ensures
            r == (key@ == "pj"@ || key@ == "mppj"@),
    {
        str_equal(key, "pj") || str_equal(key, "mppj")
    }
}

/// What `bitcoin_uri_composer` reads before it hands out the extra parameters: whether there is an
/// address, and the decoded values of each extra query key; or the kind of failure.
pub uninterp spec fn bip321_params(s: Seq<char>) -> Result<
    (bool, Map<Seq<char>, Seq<Seq<char>>>),
    ComposerFailure,
>;

/// Whether the address of a URI belongs to a network.
pub uninterp spec fn bip321_address_on(s: Seq<char>, network: Network) -> bool;

/// The values of a key, required or not.
pub open spec fn values_of(params: Map<Seq<char>, Seq<Seq<char>>>, key: Seq<char>) -> Seq<
    Seq<char>,
> {
    let plain = if params.dom().contains(key) {
        params[key]
    } else {
        Seq::empty()
    };
    let required = if params.dom().contains("req-"@ + key) {
        params["req-"@ + key]
    } else {
        Seq::empty()
    };
    plain + required
}

/// Whether a key is marked as one that must be understood.
pub open spec fn is_required(key: Seq<char>) -> bool {
    key.len() >= 4 && key.take(4) == "req-"@
}

/// Whether a key is one that multiparty Payjoin knows.
pub open spec fn is_known(key: Seq<char>) -> bool {
    key == "pj"@ || key == "mppj"@
}

/// Whether a required key is one that multiparty Payjoin does not know.
pub open spec fn requires_unknown(params: Map<Seq<char>, Seq<Seq<char>>>) -> bool {
    exists|key: Seq<char>| #[trigger]
        params.dom().contains(key) && is_required(key) && !is_known(key.skip(4))
}

/// Whether `pj` or `mppj` is given more than once.
pub open spec fn repeats(params: Map<Seq<char>, Seq<Seq<char>>>) -> bool {
    values_of(params, "pj"@).len() > 1 || values_of(params, "mppj"@).len() > 1
}

/// Whether there is neither `pj` nor `mppj`.
pub open spec fn lacks_extras(params: Map<Seq<char>, Seq<Seq<char>>>) -> bool {
    values_of(params, "pj"@).len() == 0 && values_of(params, "mppj"@).len() == 0
}

/// What the parameters of an accepted URI say.
pub open spec fn extras_of(params: Map<Seq<char>, Seq<Seq<char>>>) -> ExtrasModel {
    let pj = values_of(params, "pj"@);
    let mppj = values_of(params, "mppj"@);
    ExtrasModel {
        pj: if pj.len() > 0 {
            Some(pj[0])
        } else {
            None
        },
        mppj: mppj.len() > 0 && mppj[0] == "1"@,
        bad_mppj: mppj.len() > 0 && mppj[0] != "1"@,
    }
}

/// Whether `s` is a BIP-321 URI with payment instructions that this library knows.
pub open spec fn is_bip321(s: Seq<char>) -> bool {
    bip321_params(s) matches Ok((has_address, params)) && !requires_unknown(params) && !repeats(
        params,
    ) && (has_address || !lacks_extras(params))
}

/// Whether refusing `s` can be put down to a failure of the given kind. Where a URI has more than
/// one fault among its extra parameters, it can be any of them.
pub open spec fn refusal(s: Seq<char>, failure: ComposerFailure) -> bool {
    match bip321_params(s) {
        Err(f) => failure == f,
        Ok((has_address, params)) => {
            ||| failure == ComposerFailure::InvalidRequiredPayment && requires_unknown(params)
            ||| failure == ComposerFailure::DuplicateParam && repeats(params)
            ||| failure == ComposerFailure::NoOnePaymentWasFound && !requires_unknown(params)
                && !repeats(params) && !has_address && lacks_extras(params)
        },
    }
}

/// Whether the first eight bytes of `s`, white space aside, end where a character ends. Every
/// ASCII text is of this kind.
pub open spec fn has_whole_scheme(s: Seq<char>) -> bool {
    let bytes = encode_utf8(trimmed(s));
    bytes.len() < 8 || is_char_boundary(bytes, 8)
}

/// A boundary follows each of the ASCII characters at the front of a text.
proof fn lemma_ascii_front(chars: Seq<char>, k: nat)
    requires
        k <= chars.len(),
        forall|i: int| 0 <= i < k ==> (#[trigger] chars[i]) as u32 <= 127,
    ensures
        encode_utf8(chars).len() >= k,
        k == chars.len() ==> encode_utf8(chars).len() == k,
        is_char_boundary(encode_utf8(chars), k as int),
    decreases k,
{
    encode_utf8_valid_utf8(chars);
    if k > 0 {
        let rest = chars.drop_first();
        assert forall|i: int| 0 <= i < k - 1 implies (#[trigger] rest[i]) as u32 <= 127 by {
            assert(rest[i] == chars[i + 1]);
        }
        lemma_ascii_front(rest, (k - 1) as nat);
        encode_utf8_first_scalar(chars);
        assert(chars[0] as u32 <= 127);
        let bytes = encode_utf8(chars);
        assert(pop_first_scalar(bytes) =~= encode_utf8(rest));
    }
}

/// The white space around an ASCII text is ASCII, and so is what is left.
proof fn lemma_trimmed_ascii(s: Seq<char>)
    requires
        forall|i: int| 0 <= i < s.len() ==> (#[trigger] s[i]) as u32 <= 127,
    ensures
        forall|i: int| 0 <= i < trimmed(s).len() ==> (#[trigger] trimmed(s)[i]) as u32 <= 127,
    decreases s.len(),
{
    if s.len() > 0 && is_white_space(s[0]) {
        assert forall|i: int| 0 <= i < s.skip(1).len() implies (#[trigger] s.skip(1)[i]) as u32
            <= 127 by {
            assert(s.skip(1)[i] == s[i + 1]);
        }
        lemma_trimmed_ascii(s.skip(1));
        assert(trimmed(s) == trimmed(s.skip(1)));
    } else if s.len() > 0 && is_white_space(s.last()) {
        assert forall|i: int| 0 <= i < s.drop_last().len() implies (#[trigger] s.drop_last()[i]) as u32
            <= 127 by {
            assert(s.drop_last()[i] == s[i]);
        }
        lemma_trimmed_ascii(s.drop_last());
        assert(trimmed(s) == trimmed(s.drop_last()));
    }
}

/// Every ASCII text can be parsed.
pub proof fn lemma_ascii_has_whole_scheme(s: Seq<char>)
    requires
        forall|i: int| 0 <= i < s.len() ==> (#[trigger] s[i]) as u32 <= 127,
    ensures
        has_whole_scheme(s),
{
    lemma_trimmed_ascii(s);
    let t = trimmed(s);
    if t.len() < 8 {
        lemma_ascii_front(t, t.len());
    } else {
        lemma_ascii_front(t, 8);
    }
}

/// Every URI that is built can be parsed.
proof fn lemma_built_has_whole_scheme(pj: Seq<char>)
    ensures
        has_whole_scheme(uri_text(pj)),
{
    reveal_strlit("bitcoin:?pj=");
    reveal_strlit("&mppj=1");
    let s = uri_text(pj);
    assert(s[0] == 'b');
    assert(s.last() == '1');
    assert(trimmed(s) == s);
    assert(forall|i: int| 0 <= i < 8 ==> s[i] == "bitcoin:?pj="@[i]);
    lemma_ascii_front(s, 8);
}

/// An upper-case hexadecimal digit.
pub open spec fn hex_char(n: u8) -> char {
    if n < 10 {
        (n + 48) as u8 as char
    } else {
        (n + 55) as u8 as char
    }
}

/// A byte, percent-encoded unless it is an ASCII letter or digit.
pub open spec fn percent_byte(b: u8) -> Seq<char> {
    if (48 <= b && b <= 57) || (65 <= b && b <= 90) || (97 <= b && b <= 122) {
        seq![b as char]
    } else {
        seq!['%', hex_char(b / 16), hex_char(b % 16)]
    }
}

/// Some bytes, percent-encoded.
pub open spec fn percent_bytes(bytes: Seq<u8>) -> Seq<char>
    decreases bytes.len(),
{
    if bytes.len() == 0 {
        Seq::empty()
    } else {
        percent_bytes(bytes.drop_last()) + percent_byte(bytes.last())
    }
}

/// The multiparty URI whose `pj` parameter is the given text.
pub open spec fn uri_text(pj: Seq<char>) -> Seq<char> {
    "bitcoin:?pj="@ + percent_bytes(encode_utf8(pj)) + "&mppj=1"@
}

/// What the query parameters of that URI say.
pub open spec fn built_extras(pj: Seq<char>) -> ExtrasModel {
    ExtrasModel { pj: Some(pj), mppj: true, bad_mppj: false }
}

/// The query parameters of that URI.
pub open spec fn built_params(pj: Seq<char>) -> Map<Seq<char>, Seq<Seq<char>>> {
    Map::empty().insert("pj"@, seq![pj]).insert("mppj"@, seq!["1"@])
}

/// Whether a parse succeeded, with no address, a `pj` parameter with the given text and `mppj=1`.
pub open spec fn says_only_pj(
    parsed: Result<(bool, Option<PayjoinBip321Extras>), Bip321Errors<'_>>,
    pj: Seq<char>,
) -> bool {
    parsed matches Ok((has_address, extras)) && !has_address && (extras matches Some(e) && e@
        == built_extras(pj))
}

/// The extras after one more parameter, handed over under its key without the mark of a required
/// one; a required one must be known.
pub open spec fn handed(e: ExtrasModel, key: Seq<char>, values: Seq<Seq<char>>) -> Result<
    ExtrasModel,
    ComposerFailure,
> {
    let name = if is_required(key) {
        key.skip(4)
    } else {
        key
    };
    if is_required(key) && !is_known(name) {
        Err(ComposerFailure::InvalidRequiredPayment)
    } else {
        match handled(e, name, values) {
            Some(next) => Ok(next),
            None => Err(ComposerFailure::DuplicateParam),
        }
    }
}

/// The extras after the parameters with the given keys, in order, up to the first that fails.
pub open spec fn walked(params: Map<Seq<char>, Seq<Seq<char>>>, order: Seq<Seq<char>>) -> Result<
    ExtrasModel,
    ComposerFailure,
>
    decreases order.len(),
{
    if order.len() == 0 {
        Ok(ExtrasModel { pj: None, mppj: false, bad_mppj: false })
    } else {
        match walked(params, order.drop_last()) {
            Ok(e) => handed(e, order.last(), params[order.last()]),
            Err(f) => Err(f),
        }
    }
}

/// Whether the keys of some parameters are listed, each once, and each has a value.
pub open spec fn lists_keys(
    order: Seq<Seq<char>>,
    params: Map<Seq<char>, Seq<Seq<char>>>,
) -> bool {
    &&& order.no_duplicates()
    &&& forall|key: Seq<char>| #[trigger] order.contains(key) <==> params.dom().contains(key)
    &&& forall|key: Seq<char>| #[trigger] params.dom().contains(key) ==> params[key].len() > 0
}

/// Whether a parse ends as it should once the extra parameters were handed over: with their
/// failure, with nothing to pay to, or with what they say, none where they say nothing.
pub open spec fn parse_ends(
    has_address: bool,
    extras: Result<ExtrasModel, ComposerFailure>,
    r: Result<(bool, Option<PayjoinBip321Extras>), Bip321Errors<'_>>,
) -> bool {
    match extras {
        Err(f) => r matches Err(e) && bip321_error_kind(e) == f,
        Ok(m) => {
            let nothing = m.pj is None && !m.mppj && !m.bad_mppj;
            if nothing && !has_address {
                r matches Err(e) && bip321_error_kind(e) == ComposerFailure::NoOnePaymentWasFound
            } else {
                r matches Ok(parsed) && parsed.0 == has_address && if nothing {
                    parsed.1 is None
                } else {
                    parsed.1 matches Some(x) && x@ == m
                }
            }
        },
    }
}

/// Whether parsing `s` ends as it should: the extra parameters are handed over in some order. A URI
/// made of an empty path, a percent-encoded `pj` and `mppj=1` has just those parameters.
pub open spec fn parses(
    s: Seq<char>,
    r: Result<(bool, Option<PayjoinBip321Extras>), Bip321Errors<'_>>,
) -> bool {
    &&& match bip321_params(s) {
        Err(f) => r matches Err(e) && bip321_error_kind(e) == f,
        Ok((has_address, params)) => exists|order: Seq<Seq<char>>| #[trigger]
            lists_keys(order, params) && parse_ends(has_address, walked(params, order), r),
    }
    &&& forall|pj: Seq<char>| s == #[trigger] uri_text(pj) ==> bip321_params(s) == Ok::<
        _,
        ComposerFailure,
    >((false, built_params(pj)))
}

/// The values of a key, required or not, among the parameters with the given keys.
spec fn values_in(
    params: Map<Seq<char>, Seq<Seq<char>>>,
    order: Seq<Seq<char>>,
    key: Seq<char>,
) -> Seq<Seq<char>> {
    let plain = if order.contains(key) {
        params[key]
    } else {
        Seq::empty()
    };
    let required = if order.contains("req-"@ + key) {
        params["req-"@ + key]
    } else {
        Seq::empty()
    };
    plain + required
}

/// The keys that matter differ, and the marked ones are the ones that are marked.
proof fn lemma_keys_differ()
    ensures
        "pj"@ != "mppj"@,
        !is_required("pj"@),
        !is_required("mppj"@),
        is_required("req-"@ + "pj"@),
        is_required("req-"@ + "mppj"@),
        ("req-"@ + "pj"@).skip(4) == "pj"@,
        ("req-"@ + "mppj"@).skip(4) == "mppj"@,
        forall|key: Seq<char>| #[trigger] is_required(key) ==> key == "req-"@ + key.skip(4),
{
    reveal_strlit("pj");
    reveal_strlit("mppj");
    reveal_strlit("req-");
    assert("mppj"@.take(4)[0] != "req-"@[0]);
    assert(("req-"@ + "pj"@).take(4) =~= "req-"@);
    assert(("req-"@ + "mppj"@).take(4) =~= "req-"@);
    assert(("req-"@ + "pj"@).skip(4) =~= "pj"@);
    assert(("req-"@ + "mppj"@).skip(4) =~= "mppj"@);
    assert forall|key: Seq<char>| #[trigger] is_required(key) implies key == "req-"@ + key.skip(
        4,
    ) by {
        assert(key =~= key.take(4) + key.skip(4));
    }
}

/// What handing over the parameters with the given keys comes to, whatever their order.
proof fn lemma_walked(params: Map<Seq<char>, Seq<Seq<char>>>, order: Seq<Seq<char>>)
    requires
        order.no_duplicates(),
        forall|i: int| 0 <= i < order.len() ==> params[#[trigger] order[i]].len() > 0,
    ensures
        ({
            let pj = values_in(params, order, "pj"@);
            let mppj = values_in(params, order, "mppj"@);
            match walked(params, order) {
                Ok(e) => {
                    &&& pj.len() <= 1 && mppj.len() <= 1
                    &&& e.pj == (if pj.len() > 0 {
                        Some(pj[0])
                    } else {
                        None
                    })
                    &&& e.mppj == (mppj.len() > 0 && mppj[0] == "1"@)
                    &&& e.bad_mppj == (mppj.len() > 0 && mppj[0] != "1"@)
                    &&& forall|i: int|
                        0 <= i < order.len() ==> !is_required(#[trigger] order[i]) || is_known(
                            order[i].skip(4),
                        )
                },
                Err(f) => {
                    ||| f == ComposerFailure::DuplicateParam && (pj.len() > 1 || mppj.len() > 1)
                    ||| f == ComposerFailure::InvalidRequiredPayment && exists|i: int|
                        0 <= i < order.len() && is_required(#[trigger] order[i]) && !is_known(
                            order[i].skip(4),
                        )
                },
            }
        }),
    decreases order.len(),
{
    lemma_keys_differ();
    if order.len() == 0 {
        assert(values_in(params, order, "pj"@) =~= Seq::empty());
        assert(values_in(params, order, "mppj"@) =~= Seq::empty());
    } else {
        let rest = order.drop_last();
        let key = order.last();
        let values = params[key];
        assert forall|i: int| 0 <= i < rest.len() implies params[#[trigger] rest[i]].len() > 0 by {
            assert(rest[i] == order[i]);
        }
        lemma_walked(params, rest);
        assert(values == params[order[order.len() - 1]]);
        assert forall|k: Seq<char>| #[trigger] order.contains(k) == (rest.contains(k) || k
            == key) by {
            if order.contains(k) {
                let i = choose|i: int| 0 <= i < order.len() && order[i] == k;
                if i < rest.len() {
                    assert(rest[i] == k);
                }
            }
            if rest.contains(k) {
                let i = choose|i: int| 0 <= i < rest.len() && rest[i] == k;
                assert(order[i] == k);
            }
            assert(order[order.len() - 1] == key);
        }
        assert(!rest.contains(key)) by {
            if rest.contains(key) {
                let i = choose|i: int| 0 <= i < rest.len() && rest[i] == key;
                assert(order[i] == order[order.len() - 1]);
            }
        }
        lemma_values_grow(params, rest, key, "pj"@);
        lemma_values_grow(params, rest, key, "mppj"@);
        assert(rest.push(key) =~= order);
        match walked(params, rest) {
            Ok(e) => {
                assert forall|i: int| 0 <= i < rest.len() implies !is_required(
                    #[trigger] order[i],
                ) || is_known(order[i].skip(4)) by {
                    assert(rest[i] == order[i]);
                }
                if is_required(key) && !is_known(key.skip(4)) {
                    assert(is_required(order[order.len() - 1]));
                }
            },
            Err(f) => {
                if f == ComposerFailure::InvalidRequiredPayment {
                    let i = choose|i: int|
                        0 <= i < rest.len() && is_required(#[trigger] rest[i]) && !is_known(
                            rest[i].skip(4),
                        );
                    assert(order[i] == rest[i]);
                }
            },
        }
    }
}

/// The values of a key after one more parameter.
proof fn lemma_values_grow(
    params: Map<Seq<char>, Seq<Seq<char>>>,
    rest: Seq<Seq<char>>,
    key: Seq<char>,
    name: Seq<char>,
)
    requires
        !rest.contains(key),
        is_known(name),
    ensures
        ({
            let before = values_in(params, rest, name);
            let after = values_in(params, rest.push(key), name);
            if key == name || key == "req-"@ + name {
                &&& after.len() == before.len() + params[key].len()
                &&& before.len() == 0 ==> after == params[key]
            } else {
                after == before
            }
        }),
{
    lemma_keys_differ();
    let order = rest.push(key);
    assert forall|k: Seq<char>| #[trigger] order.contains(k) == (rest.contains(k) || k == key) by {
        if order.contains(k) {
            let i = choose|i: int| 0 <= i < order.len() && order[i] == k;
            if i < rest.len() {
                assert(rest[i] == k);
            }
        }
        if rest.contains(k) {
            let i = choose|i: int| 0 <= i < rest.len() && rest[i] == k;
            assert(order[i] == k);
        }
        assert(order[rest.len() as int] == key);
    }
    let before = values_in(params, rest, name);
    let after = values_in(params, order, name);
    assert(name != "req-"@ + name);
    if (key == name || key == "req-"@ + name) && before.len() == 0 {
        assert(after =~= params[key]);
    }
}

/// Whatever order the extra parameters are handed over in, a URI is accepted or refused for what
/// they say.
proof fn lemma_parses(
    s: Seq<char>,
    r: Result<(bool, Option<PayjoinBip321Extras>), Bip321Errors<'_>>,
)
    requires
        parses(s, r),
    ensures
        r is Ok <==> is_bip321(s),
        r matches Ok(parsed) ==> {
            let (has_address, params) = bip321_params(s)->Ok_0;
            &&& parsed.0 == has_address
            &&& parsed.1 is None <==> lacks_extras(params)
            &&& parsed.1 matches Some(extras) ==> extras@ == extras_of(params)
        },
        r matches Err(e) ==> refusal(s, bip321_error_kind(e)),
        forall|pj: Seq<char>| s == #[trigger] uri_text(pj) ==> says_only_pj(r, pj),
{
    if let Ok((has_address, params)) = bip321_params(s) {
        let order = choose|order: Seq<Seq<char>>| #[trigger]
            lists_keys(order, params) && parse_ends(has_address, walked(params, order), r);
        assert forall|i: int| 0 <= i < order.len() implies params[#[trigger] order[i]].len() > 0 by {
            assert(order.contains(order[i]));
        }
        lemma_walked(params, order);
        assert(values_in(params, order, "pj"@) =~= values_of(params, "pj"@));
        assert(values_in(params, order, "mppj"@) =~= values_of(params, "mppj"@));
        match walked(params, order) {
            Ok(m) => {
                if requires_unknown(params) {
                    let key = choose|key: Seq<char>| #[trigger]
                        params.dom().contains(key) && is_required(key) && !is_known(key.skip(4));
                    assert(order.contains(key));
                    let i = choose|i: int| 0 <= i < order.len() && order[i] == key;
                    assert(is_required(order[i]));
                }
                assert(m == extras_of(params));
            },
            Err(f) => {
                if f == ComposerFailure::InvalidRequiredPayment {
                    let i = choose|i: int|
                        0 <= i < order.len() && is_required(#[trigger] order[i]) && !is_known(
                            order[i].skip(4),
                        );
                    assert(order.contains(order[i]));
                    assert(params.dom().contains(order[i]));
                }
            },
        }
    }
    assert forall|pj: Seq<char>| s == #[trigger] uri_text(pj) implies says_only_pj(r, pj) by {
        lemma_keys_differ();
        let params = built_params(pj);
        assert(bip321_params(s)->Ok_0 == (false, params));
        assert(values_of(params, "pj"@) =~= seq![pj]);
        assert(values_of(params, "mppj"@) =~= seq!["1"@]);
        assert(!requires_unknown(params));
        assert(is_bip321(s));
        assert(extras_of(params) == built_extras(pj));
    }
}

/// `utf8_percent_encode` of `percent_encoding_rfc3986` with `NON_ALPHANUMERIC`: ASCII letters and
/// digits stand for themselves, every other byte of the UTF-8 form becomes `%` and two upper-case
/// hexadecimal digits.
#[verifier::external_body]
fn percent_encode(s: &str) -> (r: String)
    ensures
        r@ == percent_bytes(encode_utf8(s@)),
{
    percent_encoding_rfc3986::utf8_percent_encode(
        s,
        percent_encoding_rfc3986::NON_ALPHANUMERIC,
    ).to_string()
}

/// `bitcoin_uri_composer::Bip321::parse_url` with `PayjoinBip321Extras`: whether there is an
/// address, and what the extra parameters say, none where they say nothing. What it reads before
/// it hands out the extra parameters is named `bip321_params`; a key that it reads has a value. It
/// hands them to `handle_param`, starting from the default, in the order in which it walks a
/// `HashMap`, which may be any, and stops at the first failure. A URI made of an empty path, a
/// percent-encoded `pj` and `mppj=1` has just those parameters.
#[verifier::external_body]
fn bip321_parse<'a>(s: &'a str) -> (r: Result<(bool, Option<PayjoinBip321Extras>), Bip321Errors<'a>>)
    requires
        has_whole_scheme(s@),
    ensures
        parses(s@, r),
{
    let parsed = Bip321::<PayjoinBip321Extras>::parse_url(s)?;
    Ok((parsed.address.is_some(), parsed.extras))
}

/// `bitcoin_uri_composer::Bip321::into_checked` on what `parse_url` gives: fails where the URI has
/// an address that does not belong to the network, and nowhere else.
#[verifier::external_body]
fn bip321_check_network<'a>(s: &'a str, network: Network) -> (r: Result<(), Bip321Errors<'a>>)
    requires
        has_whole_scheme(s@),
        is_bip321(s@),
    ensures
        r is Ok <==> bip321_params(s@)->Ok_0.0 ==> bip321_address_on(s@, network),
        r matches Err(e) ==> bip321_error_kind(e) == ComposerFailure::InvalidAddress,
{
    let network = match network {
        Network::Bitcoin => bitcoin::Network::Bitcoin,
        Network::Testnet => bitcoin::Network::Testnet,
        Network::Testnet4 => bitcoin::Network::Testnet4,
        Network::Signet => bitcoin::Network::Signet,
        Network::Regtest => bitcoin::Network::Regtest,
    };
    Bip321::<PayjoinBip321Extras>::parse_url(s)?.into_checked(network).map(|_| ())
}

/// What an accepted URI comes to.
pub open spec fn interpreted(has_address: bool, extras: Option<ExtrasModel>) -> Result<
    PjModel,
    MultipartyUriError,
> {
    if has_address {
        Err(MultipartyUriError::UnexpectedAddress)
    } else {
        match extras {
            None => Err(MultipartyUriError::MissingPj),
            Some(e) => if e.bad_mppj {
                Err(MultipartyUriError::BadMppj)
            } else if !e.mppj {
                Err(MultipartyUriError::MissingMppj)
            } else {
                match e.pj {
                    None => Err(MultipartyUriError::MissingPj),
                    Some(pj) => match parse_pj(pj) {
                        Ok(m) => Ok(m),
                        Err(e) => Err(MultipartyUriError::Pj(e)),
                    },
                }
            },
        }
    }
}

/// What an accepted URI comes to.
pub open spec fn interpreted_uri(s: Seq<char>) -> Result<PjModel, MultipartyUriError> {
    let (has_address, params) = bip321_params(s)->Ok_0;
    interpreted(
        has_address,
        if lacks_extras(params) {
            None
        } else {
            Some(extras_of(params))
        },
    )
}

/// Reads the `pj` parameter off an accepted URI.
pub fn interpret(has_address: bool, extras: Option<PayjoinBip321Extras>) -> (r: Result<
    PjParam,
    MultipartyUriError,
>)
    ensures
        match interpreted(
            has_address,
            match extras {
                Some(e) => Some(e@),
                None => None,
            },
        ) {
            Ok(m) => r is Ok && r->Ok_0@ == m,
            Err(e) => r == Err::<PjParam, _>(e),
        },
{
    if has_address {
        return Err(MultipartyUriError::UnexpectedAddress);
    }
    let extras = match extras {
        Some(extras) => extras,
        None => return Err(MultipartyUriError::MissingPj),
    };
    if extras.bad_mppj {
        return Err(MultipartyUriError::BadMppj);
    }
    if !extras.mppj {
        return Err(MultipartyUriError::MissingMppj);
    }
    let pj = match extras.pj {
        Some(pj) => pj,
        None => return Err(MultipartyUriError::MissingPj),
    };
    match PjParam::parse(&pj) {
        Ok(pj_param) => Ok(pj_param),
        Err(e) => Err(MultipartyUriError::Pj(e)),
    }
}

/// A multiparty Payjoin URI with no `bitcoin:` address (BIP-321).
#[derive(Debug, PartialEq, Eq)]
pub struct MultipartyPjUri {
    pj_param: PjParam,
    uri: String,
}

impl MultipartyPjUri {
    /// The `pj` parameter.
    pub closed spec fn spec_pj_param(self) -> PjParam {
        self.pj_param
    }

    /// The URI.
    pub closed spec fn spec_uri(self) -> Seq<char> {
        self.uri@
    }

    pub fn as_str(&self) -> (r: &str)
        ensures
            r@ == self.spec_uri(),
    {
        &self.uri
    }

    pub fn pj_param(&self) -> (r: &PjParam)
        ensures
            *r == self.spec_pj_param(),
    {
        &self.pj_param
    }

    /// Whether a text can be parsed at all: where a character stands across the end of its first
    /// eight bytes, it cannot.
    pub fn can_parse(s: &str) -> (r: bool)
        ensures
            r == has_whole_scheme(s@),
    {
        let text = trim(s);
        let text = text.as_str();
        text.as_bytes().len() < 8 || text.is_char_boundary(8)
    }

    /// Parse a BIP-321 URI containing `pj` and `mppj=1`. A URI that was built for a `pj` parameter
    /// is parsed to what the text of the parameter is read as.
    pub fn parse(s: &str) -> (r: Result<Self, MultipartyUriError>)
        requires
            has_whole_scheme(s@),
        ensures
            is_bip321(s@) ==> match interpreted_uri(s@) {
                Ok(m) => r matches Ok(u) && u.spec_pj_param()@ == m && u.spec_uri() == s@,
                Err(e) => r == Err::<Self, _>(e),
            },
            !is_bip321(s@) ==> (r matches Err(MultipartyUriError::Composer(message)) && exists|
                f: ComposerFailure,
            | #[trigger]
                refusal(s@, f) && message@ == f.spec_message()),
            forall|pj: Seq<char>|
                s@ == #[trigger] uri_text(pj) ==> match parse_pj(pj) {
                    Ok(m) => r matches Ok(u) && u.spec_pj_param()@ == m && u.spec_uri() == s@,
                    Err(e) => r == Err::<Self, _>(MultipartyUriError::Pj(e)),
                },
    {
        let parsed = bip321_parse(s);
        proof {
            lemma_parses(s@, parsed);
        }
        match parsed {
            Ok((has_address, extras)) => match interpret(has_address, extras) {
                Ok(pj_param) => Ok(Self { pj_param, uri: s.to_owned() }),
                Err(e) => Err(e),
            },
            Err(e) => Err(MultipartyUriError::composer(error_kind(e))),
        }
    }

    /// Re-parse and run BIP-321 network checks (no effect when there is no address).
    pub fn into_network_checked(self, network: Network) -> (r: Result<Self, MultipartyUriError>)
        requires
            has_whole_scheme(self.spec_uri()),
        ensures
            is_bip321(self.spec_uri()) ==> if bip321_params(self.spec_uri())->Ok_0.0
                && !bip321_address_on(self.spec_uri(), network) {
                r matches Err(MultipartyUriError::Composer(message)) && message@
                    == "invalid address"@
            } else {
                r == Ok::<Self, MultipartyUriError>(self)
            },
            !is_bip321(self.spec_uri()) ==> (r matches Err(MultipartyUriError::Composer(message))
                && exists|f: ComposerFailure| #[trigger]
                refusal(self.spec_uri(), f) && message@ == f.spec_message()),
    {
        let parsed = bip321_parse(&self.uri);
        proof {
            lemma_parses(self.uri@, parsed);
        }
        if let Err(e) = parsed {
            return Err(MultipartyUriError::composer(error_kind(e)));
        }
        if let Err(e) = bip321_check_network(&self.uri, network) {
            return Err(MultipartyUriError::composer(error_kind(e)));
        }
        Ok(self)
    }
}

/// Build a BIP-321 multiparty Payjoin URI (`bitcoin:?pj=…&mppj=1`). The text of a well-formed
/// parameter, and so the URI, is read back as that parameter.
pub fn build_multiparty_pj_uri(pj_param: &PjParam) -> (r: MultipartyPjUri)
    ensures
        r.spec_pj_param() == *pj_param,
        r.spec_uri() == uri_text(pj_param@.text()),
        has_whole_scheme(r.spec_uri()),
        pj_param@.well_formed() ==> parse_pj(pj_param@.text()) == Ok::<_, PjParseError>(pj_param@),
{
    proof {
        lemma_built_has_whole_scheme(pj_param@.text());
    }
    let pj = pj_param.as_string();
    let encoded = percent_encode(&pj);
    let mut uri = concat("bitcoin:?pj=", &encoded);
    uri.append("&mppj=1");
    MultipartyPjUri { pj_param: pj_param.clone(), uri }
}

/// A multiparty URI has an empty path, the parameter percent-encoded as `pj`, and `mppj=1`; different
/// parameters are written letter by letter of their encodings.
pub proof fn law_uri_is_written(pj: Seq<char>, a: Seq<u8>, b: Seq<u8>)
    ensures
        uri_text(pj) == "bitcoin:?pj="@ + percent_bytes(encode_utf8(pj)) + "&mppj=1"@,
        percent_bytes(a + b) == percent_bytes(a) + percent_bytes(b),
    decreases b.len(),
{
    if b.len() == 0 {
        assert(a + b =~= a);
        assert(percent_bytes(a) + percent_bytes(b) =~= percent_bytes(a));
    } else {
        law_uri_is_written(pj, a, b.drop_last());
        assert((a + b).drop_last() =~= a + b.drop_last());
        assert((a + b).last() == b.last());
        assert(percent_bytes(a + b) =~= percent_bytes(a) + percent_bytes(b));
    }
}

/// What is read off a URI that was accepted: one with an address is refused; then one without `pj` and
/// `mppj`; then one whose `mppj` is not 1; then one without it; then one without `pj`; and what `pj` says
/// is the parameter, or why it is none.
pub proof fn law_uri_is_interpreted(has_address: bool, extras: Option<ExtrasModel>)
    ensures
        has_address ==> interpreted(has_address, extras) == Err::<PjModel, _>(
            MultipartyUriError::UnexpectedAddress,
        ),
        !has_address && extras is None ==> interpreted(has_address, extras) == Err::<PjModel, _>(
            MultipartyUriError::MissingPj,
        ),
        !has_address ==> (extras matches Some(e) ==> {
            &&& e.bad_mppj ==> interpreted(has_address, extras) == Err::<PjModel, _>(
                MultipartyUriError::BadMppj,
            )
            &&& !e.bad_mppj && !e.mppj ==> interpreted(has_address, extras) == Err::<PjModel, _>(
                MultipartyUriError::MissingMppj,
            )
            &&& !e.bad_mppj && e.mppj && e.pj is None ==> interpreted(has_address, extras) == Err::<
                PjModel,
                _,
            >(MultipartyUriError::MissingPj)
            &&& !e.bad_mppj && e.mppj && e.pj is Some ==> (match parse_pj(e.pj->0) {
                Ok(m) => interpreted(has_address, extras) == Ok::<_, MultipartyUriError>(m),
                Err(cause) => interpreted(has_address, extras) == Err::<PjModel, _>(
                    MultipartyUriError::Pj(cause),
                ),
            })
        }),
{
}

/// What the parameters of a URI say: the first value of `pj`, whether the first value of `mppj` is `1`, and
/// whether there is another; a required one counts like a plain one, behind it.
pub proof fn law_parameters_are_read(params: Map<Seq<char>, Seq<Seq<char>>>)
    ensures
        ({
            let pj = values_of(params, "pj"@);
            let mppj = values_of(params, "mppj"@);
            let e = extras_of(params);
            &&& e.pj is Some <==> pj.len() > 0
            &&& e.pj matches Some(text) ==> text == pj[0]
            &&& e.mppj <==> mppj.len() > 0 && mppj[0] == "1"@
            &&& e.bad_mppj <==> mppj.len() > 0 && mppj[0] != "1"@
            &&& lacks_extras(params) <==> pj.len() == 0 && mppj.len() == 0
            &&& repeats(params) <==> pj.len() > 1 || mppj.len() > 1
        }),
        forall|key: Seq<char>| #[trigger]
            values_of(params, key) == (if params.dom().contains(key) {
                params[key]
            } else {
                Seq::empty()
            }) + (if params.dom().contains("req-"@ + key) {
                params["req-"@ + key]
            } else {
                Seq::empty()
            }),
        requires_unknown(params) <==> exists|name: Seq<char>|
            name != "pj"@ && name != "mppj"@ && #[trigger] params.dom().contains("req-"@ + name),
{
    reveal_strlit("req-");
    if requires_unknown(params) {
        let key = choose|key: Seq<char>| #[trigger]
            params.dom().contains(key) && is_required(key) && !is_known(key.skip(4));
        let name = key.skip(4);
        assert("req-"@ + name =~= key);
        assert(params.dom().contains("req-"@ + name));
    }
    if exists|name: Seq<char>|
        name != "pj"@ && name != "mppj"@ && #[trigger] params.dom().contains("req-"@ + name) {
        let name = choose|name: Seq<char>|
            name != "pj"@ && name != "mppj"@ && #[trigger] params.dom().contains("req-"@ + name);
        let key = "req-"@ + name;
        assert(key.take(4) =~= "req-"@);
        assert(key.skip(4) =~= name);
        assert(params.dom().contains(key) && is_required(key) && !is_known(key.skip(4)));
    }
}

/// Which URIs are accepted, and why one that is not may be refused.
pub proof fn law_uri_is_accepted(s: Seq<char>, failure: ComposerFailure)
    ensures
        is_bip321(s) <==> (bip321_params(s) matches Ok((has_address, params)) && !requires_unknown(
            params,
        ) && !repeats(params) && (has_address || values_of(params, "pj"@).len() > 0 || values_of(
            params,
            "mppj"@,
        ).len() > 0)),
        is_bip321(s) ==> !refusal(s, failure),
        !is_bip321(s) ==> exists|f: ComposerFailure| refusal(s, f),
        bip321_params(s) matches Err(f) ==> (refusal(s, failure) <==> failure == f),
        bip321_params(s) matches Ok((_, params)) ==> (refusal(s, failure) ==> match failure {
            ComposerFailure::InvalidRequiredPayment => requires_unknown(params),
            ComposerFailure::DuplicateParam => repeats(params),
            ComposerFailure::NoOnePaymentWasFound => lacks_extras(params),
            _ => false,
        }),
{
    if !is_bip321(s) {
        match bip321_params(s) {
            Err(f) => {
                assert(refusal(s, f));
            },
            Ok((has_address, params)) => {
                if requires_unknown(params) {
                    assert(refusal(s, ComposerFailure::InvalidRequiredPayment));
                } else if repeats(params) {
                    assert(refusal(s, ComposerFailure::DuplicateParam));
                } else {
                    assert(refusal(s, ComposerFailure::NoOnePaymentWasFound));
                }
            },
        }
    }
}

/// One more parameter: `pj` and `mppj` are taken over the first time they come, with one value; a second
/// one, or a second value, is refused. Any other parameter changes nothing.
pub proof fn law_parameter_is_handled(e: ExtrasModel, key: Seq<char>, values: Seq<Seq<char>>)
    requires
        values.len() > 0,
    ensures
        key != "pj"@ && key != "mppj"@ ==> handled(e, key, values) == Some(e),
        key == "pj"@ ==> (match handled(e, key, values) {
            None => e.pj is Some || values.len() > 1,
            Some(next) => e.pj is None && values.len() == 1 && next.pj == Some(values[0])
                && next.mppj == e.mppj && next.bad_mppj == e.bad_mppj,
        }),
        key == "mppj"@ ==> (match handled(e, key, values) {
            None => e.mppj || e.bad_mppj || values.len() > 1,
            Some(next) => !e.mppj && !e.bad_mppj && values.len() == 1 && next.pj == e.pj
                && next.mppj == (values[0] == "1"@) && next.bad_mppj == (values[0] != "1"@),
        }),
{
    reveal_strlit("pj");
    reveal_strlit("mppj");
    assert("pj"@.len() == 2);
    assert("mppj"@.len() == 4);
}

/// What is said of the parameters that were read is what they hold.
pub proof fn law_extras_are_what_is_said(e: PayjoinBip321Extras)
    ensures
        e@.pj == (match e.pj {
            Some(text) => Some(text@),
            None => None,
        }),
        e@.mppj == e.mppj,
        e@.bad_mppj == e.bad_mppj,
{
}

/// The message of an error that has a cause ends with the message of the cause.
pub proof fn law_message_ends_with_the_cause(e: MultipartyUriError)
    ensures
        match e {
            MultipartyUriError::Composer(cause) => ends_with(e.spec_message(), cause@),
            MultipartyUriError::Pj(cause) => ends_with(e.spec_message(), cause.spec_message()),
            _ => true,
        },
{
    match e {
        MultipartyUriError::Composer(cause) => lemma_ends_with("BIP-321 URI error: "@, cause@),
        MultipartyUriError::Pj(cause) => lemma_ends_with(
            "invalid pj parameter: "@,
            cause.spec_message(),
        ),
        _ => {},
    }
}

} // verus!
