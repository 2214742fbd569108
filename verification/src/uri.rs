//! The `pj` parameter of a Payjoin URI.
//!
//! A v2 parameter is the URL of a mailbox, with the expiration, the directory's OHTTP key and the
//! receiver's public key in its fragment: `EX1…-OH1…-RK1…`. A URL without a fragment is a v1
//! endpoint.
use vstd::prelude::*;
use vstd::slice::*;
use vstd::string::*;

use crate::bech32::{
    bech32_decoded, bech32_encoded, decode_no_checksum, encode_no_checksum, is_bech32_char,
};
use crate::bytes::{append_bytes, to_array};
use crate::directory::{mailbox_endpoint, mailbox_url, parse_short_id, short_id_text, ShortId};
use crate::hpke::{compressed, is_public_key, lemma_same_key, HpkePublicKey};
use crate::ohttp::OhttpKeys;
use crate::text::{
    chars_of, concat, lower_char, lowered, str_equal, string_of, to_upper, uppered,
};
use crate::time::Time;
use crate::url::{
    ends_authority, ends_path, is_letter, is_scheme_char, lemma_parse_of_parts, parse_url, Url,
    UrlModel, UrlParseError,
};

verus! {

/// Why a text is no `pj` parameter.
#[derive(Debug, Clone, Copy, PartialEq, Eq)]
pub enum PjParseError {
    /// The endpoint is no URL.
    BadEndpoint(UrlParseError),
    /// The last path segment is no mailbox id.
    BadShortId,
    /// The expiration is missing or malformed.
    BadExpiration,
    /// The OHTTP key is missing or malformed.
    BadOhttpKeys,
    /// The receiver's public key is missing or malformed.
    BadReceiverPubkey,
}

impl PjParseError {
    /// The message shown for this error.
    pub open spec fn spec_message(self) -> Seq<char> {
        match self {
            PjParseError::BadEndpoint(e) => "invalid endpoint: "@ + e.spec_message(),
            PjParseError::BadShortId => "invalid mailbox id"@,
            PjParseError::BadExpiration => "missing or invalid expiration"@,
            PjParseError::BadOhttpKeys => "missing or invalid ohttp keys"@,
            PjParseError::BadReceiverPubkey => "missing or invalid receiver public key"@,
        }
    }

    /// The message shown for this error.
    pub fn message(&self) -> (r: String)
        ensures
            r@ == self.spec_message(),
    {
        match self {
            Self::BadEndpoint(e) => concat("invalid endpoint: ", &e.message()),
            Self::BadShortId => "invalid mailbox id".to_owned(),
            Self::BadExpiration => "missing or invalid expiration".to_owned(),
            Self::BadOhttpKeys => "missing or invalid ohttp keys".to_owned(),
            Self::BadReceiverPubkey => "missing or invalid receiver public key".to_owned(),
        }
    }
}

/// A v1 `pj` parameter: the receiver's own endpoint.
#[derive(Debug, PartialEq, Eq)]
pub struct V1PjParam {
    pub endpoint: Url,
}

/// A v2 `pj` parameter: a mailbox of a Payjoin Directory.
#[derive(Debug, PartialEq, Eq)]
pub struct V2PjParam {
    pub directory: Url,
    pub id: ShortId,
    pub expiration: Time,
    pub ohttp_keys: OhttpKeys,
    pub receiver_pubkey: HpkePublicKey,
}

/// A `pj` parameter.
#[derive(Debug, PartialEq, Eq)]
pub enum PjParam {
    V1(V1PjParam),
    V2(V2PjParam),
}

/// What a `pj` parameter says.
pub enum PjModel {
    V1 { endpoint: UrlModel },
    V2 {
        directory: UrlModel,
        id: Seq<u8>,
        expiration: Time,
        ohttp_keys: OhttpKeys,
        receiver_pubkey: HpkePublicKey,
    },
}

impl View for V2PjParam {
    type V = PjModel;

    open spec fn view(&self) -> PjModel {
        PjModel::V2 {
            directory: self.directory@,
            id: self.id@,
            expiration: self.expiration,
            ohttp_keys: self.ohttp_keys,
            receiver_pubkey: self.receiver_pubkey,
        }
    }
}

impl View for PjParam {
    type V = PjModel;

    open spec fn view(&self) -> PjModel {
        match self {
            PjParam::V1(v1) => PjModel::V1 { endpoint: v1.endpoint@ },
            PjParam::V2(v2) => v2@,
        }
    }
}

impl Clone for V2PjParam {
    fn clone(&self) -> (r: Self)
        ensures
            r == *self,
    {
        V2PjParam {
            directory: self.directory.clone(),
            id: self.id,
            expiration: self.expiration,
            ohttp_keys: self.ohttp_keys,
            receiver_pubkey: self.receiver_pubkey,
        }
    }
}

impl Clone for PjParam {
    fn clone(&self) -> (r: Self)
        ensures
            r == *self,
    {
        match self {
            PjParam::V1(v1) => PjParam::V1(V1PjParam { endpoint: v1.endpoint.clone() }),
            PjParam::V2(v2) => PjParam::V2(v2.clone()),
        }
    }
}

/// The bytes of a time, big endian.
pub open spec fn time_bytes(t: Time) -> Seq<u8> {
    seq![
        (t.0 / 0x100_0000) as u8,
        (t.0 / 0x1_0000 % 0x100) as u8,
        (t.0 / 0x100 % 0x100) as u8,
        (t.0 % 0x100) as u8,
    ]
}

/// The time with the given big-endian bytes.
pub open spec fn time_of_bytes(b: Seq<u8>) -> Time {
    Time((b[0] * 0x100_0000 + b[1] * 0x1_0000 + b[2] * 0x100 + b[3]) as u32)
}

/// The fragment of a v2 endpoint.
pub open spec fn v2_fragment(
    expiration: Time,
    ohttp_keys: OhttpKeys,
    receiver_pubkey: HpkePublicKey,
) -> Seq<char> {
    bech32_encoded("EX"@, time_bytes(expiration)) + seq!['-'] + bech32_encoded(
        "OH"@,
        ohttp_keys.compact(),
    ) + seq!['-'] + bech32_encoded("RK"@, compressed(receiver_pubkey@))
}

impl PjModel {
    /// The URL that the parameter stands for.
    pub open spec fn endpoint(self) -> UrlModel {
        match self {
            PjModel::V1 { endpoint } => endpoint,
            PjModel::V2 { directory, id, expiration, ohttp_keys, receiver_pubkey } => UrlModel {
                fragment: Some(v2_fragment(expiration, ohttp_keys, receiver_pubkey)),
                ..mailbox_url(directory, id)
            },
        }
    }

    /// The parameter as text: the endpoint, its scheme and authority in upper case.
    pub open spec fn text(self) -> Seq<char> {
        uppered(self.endpoint().scheme) + "://"@ + uppered(self.endpoint().authority)
            + self.endpoint().path + self.endpoint().suffix()
    }

    /// Whether the text of this parameter is read back as this parameter.
    pub open spec fn well_formed(self) -> bool {
        match self {
            PjModel::V1 { endpoint } => endpoint.well_formed() && endpoint.fragment is None,
            PjModel::V2 { directory, id, ohttp_keys, receiver_pubkey, .. } => {
                &&& directory.well_formed()
                &&& directory.fragment is None
                &&& id.len() == 8
                &&& ohttp_keys.public_key.valid()
                &&& receiver_pubkey.valid()
            },
        }
    }
}

/// The last position of `/` in a text.
pub open spec fn last_slash(s: Seq<char>) -> int
    decreases s.len(),
{
    if s.len() == 0 {
        -1
    } else if s.last() == '/' {
        s.len() - 1
    } else {
        last_slash(s.drop_last())
    }
}

/// The path without its last segment.
pub open spec fn path_without_last(path: Seq<char>) -> Seq<char> {
    if last_slash(path) <= 0 {
        seq!['/']
    } else {
        path.take(last_slash(path))
    }
}

/// The parts of `s` between the dashes.
pub open spec fn split_dashes(s: Seq<char>) -> Seq<Seq<char>>
    decreases s.len(),
{
    if s.len() == 0 {
        seq![Seq::empty()]
    } else {
        let rest = split_dashes(s.drop_last());
        if s.last() == '-' {
            rest.push(Seq::empty())
        } else {
            rest.drop_last().push(rest.last().push(s.last()))
        }
    }
}

/// The bytes of the first of `parts` that starts with `hrp` and the separator `1`.
pub open spec fn fragment_param(parts: Seq<Seq<char>>, hrp: Seq<char>) -> Option<Seq<u8>>
    decreases parts.len(),
{
    if parts.len() == 0 {
        None
    } else if starts_with_hrp(parts[0], hrp) {
        match bech32_decoded(parts[0]) {
            Some((part, data)) => Some(data),
            None => None,
        }
    } else {
        fragment_param(parts.skip(1), hrp)
    }
}

/// Whether `s` starts with `hrp` and the separator `1`.
pub open spec fn starts_with_hrp(s: Seq<char>, hrp: Seq<char>) -> bool {
    s.len() > hrp.len() && s.take(hrp.len() as int) == hrp && s[hrp.len() as int] == '1'
}

/// The public key that some bytes are the compressed form of.
pub open spec fn key_of_compressed(b: Seq<u8>) -> Option<HpkePublicKey> {
    if exists|key: HpkePublicKey| key.valid() && #[trigger] compressed(key@) == b {
        Some(choose|key: HpkePublicKey| key.valid() && #[trigger] compressed(key@) == b)
    } else {
        None
    }
}

/// What reading a URL with a fragment as a v2 parameter gives.
pub open spec fn parse_v2(u: UrlModel, fragment: Seq<char>) -> Result<PjModel, PjParseError> {
    let parts = split_dashes(fragment);
    match parse_short_id(u.path.skip(last_slash(u.path) + 1)) {
        None => Err(PjParseError::BadShortId),
        Some(id) => match read_expiration(fragment_param(parts, "EX"@)) {
            None => Err(PjParseError::BadExpiration),
            Some(expiration) => match read_ohttp_keys(fragment_param(parts, "OH"@)) {
                None => Err(PjParseError::BadOhttpKeys),
                Some(ohttp_keys) => match read_pubkey(fragment_param(parts, "RK"@)) {
                    None => Err(PjParseError::BadReceiverPubkey),
                    Some(receiver_pubkey) => Ok(
                        PjModel::V2 {
                            directory: UrlModel {
                                path: path_without_last(u.path),
                                fragment: None,
                                ..u
                            },
                            id,
                            expiration,
                            ohttp_keys,
                            receiver_pubkey,
                        },
                    ),
                },
            },
        },
    }
}

/// The time that the bytes of an `EX` parameter hold.
pub open spec fn read_expiration(data: Option<Seq<u8>>) -> Option<Time> {
    match data {
        Some(b) => if b.len() == 4 {
            Some(time_of_bytes(b))
        } else {
            None
        },
        None => None,
    }
}

/// The key that the bytes of an `RK` parameter hold.
pub open spec fn read_pubkey(data: Option<Seq<u8>>) -> Option<HpkePublicKey> {
    match data {
        Some(b) => if b.len() == 33 {
            key_of_compressed(b)
        } else {
            None
        },
        None => None,
    }
}

/// The key that the bytes of an `OH` parameter hold.
pub open spec fn read_ohttp_keys(data: Option<Seq<u8>>) -> Option<OhttpKeys> {
    match data {
        Some(b) => if b.len() == 34 {
            match key_of_compressed(b.skip(1)) {
                Some(public_key) => Some(OhttpKeys { key_id: b[0], public_key }),
                None => None,
            }
        } else {
            None
        },
        None => None,
    }
}

/// What reading a text as a `pj` parameter gives.
pub open spec fn parse_pj(s: Seq<char>) -> Result<PjModel, PjParseError> {
    match parse_url(s) {
        Err(e) => Err(PjParseError::BadEndpoint(e)),
        Ok(u) => match u.fragment {
            None => Ok(PjModel::V1 { endpoint: u }),
            Some(fragment) => parse_v2(u, fragment),
        },
    }
}

/// The big-endian bytes of a time.
fn encode_time(t: Time) -> (r: [u8; 4])
    ensures
        r@ == time_bytes(t),
{
    let r: [u8; 4] = [
        (t.0 / 0x100_0000) as u8,
        (t.0 / 0x1_0000 % 0x100) as u8,
        (t.0 / 0x100 % 0x100) as u8,
        (t.0 % 0x100) as u8,
    ];
    assert(r@ =~= time_bytes(t));
    r
}

/// The bytes of a time stand for that time.
pub proof fn law_time_bytes_round_trip(t: Time)
    ensures
        time_bytes(t).len() == 4,
        time_of_bytes(time_bytes(t)) == t,
{
}

fn decode_time(b: &Vec<u8>) -> (r: Time)
    requires
        b@.len() == 4,
    ensures
        r == time_of_bytes(b@),
{
    Time(
        b[0] as u32 * 0x100_0000 + b[1] as u32 * 0x1_0000 + b[2] as u32 * 0x100 + b[3] as u32,
    )
}

/// The public key that some bytes are the compressed form of.
fn decompress(b: &[u8]) -> (r: Option<HpkePublicKey>)
    requires
        b@.len() == 33,
    ensures
        r == key_of_compressed(b@),
{
    match HpkePublicKey::from_compressed_bytes(&to_array(b)) {
        Ok(key) => {
            proof {
                assert(key.valid() && compressed(key@) == b@);
                let chosen = key_of_compressed(b@)->0;
                lemma_same_key(chosen, key);
            }
            Some(key)
        },
        Err(_) => None,
    }
}

/// Where the last `/` of a text is.
fn find_last_slash(v: &Vec<char>) -> (r: Option<usize>)
    ensures
        match r {
            Some(i) => last_slash(v@) == i && i < v.len(),
            None => last_slash(v@) == -1,
        },
{
    let mut n: usize = v.len();
    assert(v@.take(n as int) =~= v@);
    while n > 0
        invariant
            n <= v@.len(),
            last_slash(v@) == last_slash(v@.take(n as int)),
        decreases n,
    {
        if v[n - 1] == '/' {
            assert(v@.take(n as int).last() == '/');
            return Some(n - 1);
        }
        assert(v@.take(n as int).last() != '/');
        assert(v@.take(n as int).drop_last() =~= v@.take(n - 1));
        n -= 1;
    }
    None
}

/// The characters of each of some texts.
pub open spec fn views(parts: Seq<String>) -> Seq<Seq<char>> {
    parts.map_values(|s: String| s@)
}

/// Splits a text at its dashes.
fn split_at_dashes(s: &str) -> (r: Vec<String>)
    ensures
        views(r@) == split_dashes(s@),
{
    let v = chars_of(s);
    let mut parts: Vec<String> = Vec::new();
    let mut current = String::new();
    let mut i: usize = 0;
    proof {
        assert(split_dashes(v@.take(0)) == seq![Seq::<char>::empty()]);
        assert(views(parts@).push(current@) =~= split_dashes(v@.take(0)));
    }
    while i < v.len()
        invariant
            i <= v@.len(),
            views(parts@).push(current@) == split_dashes(v@.take(i as int)),
        decreases v@.len() - i,
    {
        let ghost done = views(parts@).push(current@);
        proof {
            assert(v@.take(i + 1).drop_last() =~= v@.take(i as int));
            assert(v@.take(i + 1).last() == v@[i as int]);
            assert(done.drop_last() =~= views(parts@));
            assert(done.last() == current@);
        }
        if v[i] == '-' {
            let ghost before = parts@;
            let finished = current;
            parts.push(finished);
            current = String::new();
            assert(views(parts@) =~= done);
        } else {
            current.push(v[i]);
        }
        i += 1;
    }
    assert(v@.take(i as int) =~= v@);
    let ghost done = views(parts@).push(current@);
    parts.push(current);
    assert(views(parts@) =~= done);
    parts
}

/// Whether `s` starts with `hrp` and the separator `1`.
fn has_hrp(s: &str, hrp: &str) -> (r: bool)
    ensures
        r == starts_with_hrp(s@, hrp@),
{
    let n: usize = hrp.unicode_len();
    let v = chars_of(s);
    if v.len() <= n {
        return false;
    }
    let head = string_of(&v, 0, n);
    assert(head@ =~= s@.take(n as int));
    str_equal(&head, hrp) && v[n] == '1'
}

/// The bytes of the first part that starts with `hrp`.
fn find_param(parts: &Vec<String>, hrp: &str) -> (r: Option<Vec<u8>>)
    ensures
        match fragment_param(views(parts@), hrp@) {
            Some(data) => r is Some && r->0@ == data,
            None => r is None,
        },
{
    let ghost all = views(parts@);
    let mut i: usize = 0;
    assert(all.skip(0) =~= all);
    while i < parts.len()
        invariant
            i <= parts@.len(),
            all == views(parts@),
            fragment_param(all, hrp@) == fragment_param(all.skip(i as int), hrp@),
        decreases parts@.len() - i,
    {
        assert(all.skip(i as int)[0] == parts@[i as int]@);
        if has_hrp(&parts[i], hrp) {
            return match decode_no_checksum(&parts[i]) {
                Some((_, data)) => Some(data),
                None => None,
            };
        }
        assert(all.skip(i as int).skip(1) =~= all.skip(i + 1));
        i += 1;
    }
    None
}

impl V2PjParam {
    pub fn new(
        directory: Url,
        id: ShortId,
        expiration: Time,
        ohttp_keys: OhttpKeys,
        receiver_pubkey: HpkePublicKey,
    ) -> (r: V2PjParam)
        ensures
            r == (V2PjParam { directory, id, expiration, ohttp_keys, receiver_pubkey }),
    {
        V2PjParam { directory, id, expiration, ohttp_keys, receiver_pubkey }
    }

    pub fn expiration(&self) -> (r: Time)
        ensures
            r == self.expiration,
    {
        self.expiration
    }

    pub fn ohttp_keys(&self) -> (r: &OhttpKeys)
        ensures
            *r == self.ohttp_keys,
    {
        &self.ohttp_keys
    }

    pub fn receiver_pubkey(&self) -> (r: &HpkePublicKey)
        ensures
            *r == self.receiver_pubkey,
    {
        &self.receiver_pubkey
    }
}

/// Whether no dash stands in `s`.
spec fn dashless(s: Seq<char>) -> bool {
    forall|i: int| 0 <= i < s.len() ==> #[trigger] s[i] != '-'
}

/// A text without dashes is one part.
proof fn lemma_split_dashless(s: Seq<char>)
    requires
        dashless(s),
    ensures
        split_dashes(s) == seq![s],
    decreases s.len(),
{
    if s.len() > 0 {
        assert forall|i: int| 0 <= i < s.drop_last().len() implies #[trigger] s.drop_last()[i]
            != '-' by {
            assert(s[i] != '-');
        }
        lemma_split_dashless(s.drop_last());
        assert(s.last() == s[s.len() - 1]);
        assert(split_dashes(s) =~= seq![s.drop_last().push(s.last())]);
        assert(s.drop_last().push(s.last()) =~= s);
    } else {
        assert(s =~= Seq::empty());
    }
}

/// A dash and a text without dashes make one more part.
proof fn lemma_split_more(s: Seq<char>, t: Seq<char>)
    requires
        dashless(t),
    ensures
        split_dashes(s + seq!['-'] + t) == split_dashes(s).push(t),
    decreases t.len(),
{
    let whole = s + seq!['-'] + t;
    if t.len() == 0 {
        assert(whole.drop_last() =~= s);
        assert(whole.last() == '-');
        assert(t =~= Seq::empty());
    } else {
        assert forall|i: int| 0 <= i < t.drop_last().len() implies #[trigger] t.drop_last()[i]
            != '-' by {
            assert(t[i] != '-');
        }
        lemma_split_more(s, t.drop_last());
        assert(whole.drop_last() =~= s + seq!['-'] + t.drop_last());
        assert(whole.last() == t[t.len() - 1]);
        let rest = split_dashes(s).push(t.drop_last());
        assert(rest.drop_last() =~= split_dashes(s));
        assert(t.drop_last().push(t.last()) =~= t);
    }
}

/// The last slash before a text without slashes.
proof fn lemma_last_slash(s: Seq<char>, t: Seq<char>)
    requires
        forall|i: int| 0 <= i < t.len() ==> #[trigger] t[i] != '/',
    ensures
        last_slash(s + seq!['/'] + t) == s.len(),
    decreases t.len(),
{
    let whole = s + seq!['/'] + t;
    if t.len() > 0 {
        assert forall|i: int| 0 <= i < t.drop_last().len() implies #[trigger] t.drop_last()[i]
            != '/' by {
            assert(t[i] != '/');
        }
        lemma_last_slash(s, t.drop_last());
        assert(whole.drop_last() =~= s + seq!['/'] + t.drop_last());
        assert(whole.last() == t[t.len() - 1]);
    } else {
        assert(whole.last() == '/');
    }
}

/// What is known of a bech32 text with the given human-readable part and bytes.
spec fn is_param_text(s: Seq<char>, hrp: Seq<char>, data: Seq<u8>) -> bool {
    &&& s.len() > hrp.len()
    &&& s.take(hrp.len() as int) == hrp
    &&& s[hrp.len() as int] == '1'
    &&& forall|i: int| 0 <= i < s.len() ==> is_bech32_char(#[trigger] s[i])
    &&& bech32_decoded(s) == Some((hrp, data))
}

/// The three parameters of a fragment are found again.
proof fn lemma_fragment_params(
    ex: Seq<char>,
    oh: Seq<char>,
    rk: Seq<char>,
    ex_data: Seq<u8>,
    oh_data: Seq<u8>,
    rk_data: Seq<u8>,
)
    requires
        is_param_text(ex, "EX"@, ex_data),
        is_param_text(oh, "OH"@, oh_data),
        is_param_text(rk, "RK"@, rk_data),
    ensures
        ({
            let parts = split_dashes(ex + seq!['-'] + oh + seq!['-'] + rk);
            &&& fragment_param(parts, "EX"@) == Some(ex_data)
            &&& fragment_param(parts, "OH"@) == Some(oh_data)
            &&& fragment_param(parts, "RK"@) == Some(rk_data)
        }),
{
    reveal_strlit("EX");
    reveal_strlit("OH");
    reveal_strlit("RK");
    assert(dashless(ex) && dashless(oh) && dashless(rk));
    lemma_split_dashless(ex);
    lemma_split_more(ex, oh);
    lemma_split_more(ex + seq!['-'] + oh, rk);
    let parts = split_dashes(ex + seq!['-'] + oh + seq!['-'] + rk);
    assert(parts =~= seq![ex, oh, rk]);
    assert(ex[0] == ex.take(2)[0] && oh[0] == oh.take(2)[0] && rk[0] == rk.take(2)[0]);
    assert(ex[0] == 'E' && oh[0] == 'O' && rk[0] == 'R');
    assert(!starts_with_hrp(ex, "OH"@)) by {
        if starts_with_hrp(ex, "OH"@) {
            assert(ex.take(2)[0] == 'O');
        }
    }
    assert(!starts_with_hrp(ex, "RK"@)) by {
        if starts_with_hrp(ex, "RK"@) {
            assert(ex.take(2)[0] == 'R');
        }
    }
    assert(!starts_with_hrp(oh, "RK"@)) by {
        if starts_with_hrp(oh, "RK"@) {
            assert(oh.take(2)[0] == 'R');
        }
    }
    assert(parts.skip(1) =~= seq![oh, rk]);
    assert(parts.skip(1).skip(1) =~= seq![rk]);
    assert(parts.skip(1)[0] == oh);
    assert(parts.skip(1).skip(1)[0] == rk);
    reveal_with_fuel(fragment_param, 4);
}

/// A text in lower case is what its upper-case form is lowered to.
proof fn lemma_lowered_uppered(s: Seq<char>)
    requires
        lowered(s) == s,
    ensures
        lowered(uppered(s)) == s,
{
    assert forall|i: int| 0 <= i < s.len() implies lowered(uppered(s))[i] == s[i] by {
        assert(s[i] == lowered(s)[i]);
        assert(lower_char(s[i]) == s[i]);
    }
    assert(lowered(uppered(s)) =~= s);
}

/// The text of a URL with its scheme and authority in upper case is read back as that URL.
proof fn lemma_upper_text_is_read_back(u: UrlModel)
    requires
        u.well_formed(),
    ensures
        parse_url(uppered(u.scheme) + "://"@ + uppered(u.authority) + u.path + u.suffix()) == Ok::<
            _,
            UrlParseError,
        >(u),
{
    lemma_lowered_uppered(u.scheme);
    lemma_lowered_uppered(u.authority);
    assert forall|i: int| 0 <= i < uppered(u.scheme).len() implies is_scheme_char(
        #[trigger] uppered(u.scheme)[i],
    ) by {
        assert(is_scheme_char(u.scheme[i]));
    }
    assert(is_letter(u.scheme[0]));
    assert forall|i: int| 0 <= i < uppered(u.authority).len() implies !ends_authority(
        #[trigger] uppered(u.authority)[i],
    ) by {
        assert(!ends_authority(u.authority[i]));
    }
    lemma_parse_of_parts(uppered(u.scheme), uppered(u.authority), u);
}

/// The compressed form of a key stands for that key.
proof fn lemma_key_of_compressed(key: HpkePublicKey)
    requires
        key.valid(),
        forall|other: Seq<u8>|
            is_public_key(other) && #[trigger] compressed(other) == compressed(key@) ==> other
                == key@,
    ensures
        key_of_compressed(compressed(key@)) == Some(key),
{
    let found = key_of_compressed(compressed(key@));
    assert(key.valid() && compressed(key@) == compressed(key@));
    lemma_same_key(found->0, key);
}

/// The parts of a well-formed v2 parameter are found again in its endpoint.
proof fn lemma_v2_is_read_back(
    directory: UrlModel,
    id: Seq<u8>,
    expiration: Time,
    ohttp_keys: OhttpKeys,
    receiver_pubkey: HpkePublicKey,
)
    requires
        directory.well_formed(),
        directory.fragment is None,
        parse_short_id(short_id_text(id)) == Some(id),
        forall|i: int|
            0 <= i < short_id_text(id).len() ==> is_bech32_char(#[trigger] short_id_text(id)[i]),
        ohttp_keys.public_key.valid(),
        receiver_pubkey.valid(),
        key_of_compressed(compressed(ohttp_keys.public_key@)) == Some(ohttp_keys.public_key),
        key_of_compressed(compressed(receiver_pubkey@)) == Some(receiver_pubkey),
        is_param_text(
            bech32_encoded("EX"@, time_bytes(expiration)),
            "EX"@,
            time_bytes(expiration),
        ),
        is_param_text(
            bech32_encoded("OH"@, ohttp_keys.compact()),
            "OH"@,
            ohttp_keys.compact(),
        ),
        is_param_text(
            bech32_encoded("RK"@, compressed(receiver_pubkey@)),
            "RK"@,
            compressed(receiver_pubkey@),
        ),
    ensures
        ({
            let m = PjModel::V2 { directory, id, expiration, ohttp_keys, receiver_pubkey };
            parse_pj(m.text()) == Ok::<_, PjParseError>(m)
        }),
{
    let m = PjModel::V2 { directory, id, expiration, ohttp_keys, receiver_pubkey };
    let text = short_id_text(id);
    let u = m.endpoint();
    assert forall|i: int| 0 <= i < text.len() implies #[trigger] text[i] != '/' by {
        assert(is_bech32_char(text[i]));
    }
    if directory.path.len() <= 1 {
        assert(directory.path =~= seq!['/']);
        lemma_last_slash(Seq::empty(), text);
        assert(u.path =~= Seq::<char>::empty() + seq!['/'] + text);
        assert(u.path.skip(1) =~= text);
    } else {
        lemma_last_slash(directory.path, text);
        assert(u.path == directory.path + seq!['/'] + text);
        assert(u.path.skip(directory.path.len() as int + 1) =~= text);
        assert(u.path.take(directory.path.len() as int) =~= directory.path);
    }
    assert(path_without_last(u.path) == directory.path);
    assert forall|i: int| 0 <= i < u.path.len() implies !ends_path(#[trigger] u.path[i]) by {
        if directory.path.len() > 1 {
            if i < directory.path.len() {
                assert(u.path[i] == directory.path[i]);
            } else if i > directory.path.len() {
                assert(u.path[i] == text[i - directory.path.len() - 1]);
                assert(is_bech32_char(text[i - directory.path.len() - 1]));
            }
        } else if i > 0 {
            assert(u.path[i] == text[i - 1]);
            assert(is_bech32_char(text[i - 1]));
        }
    }
    assert(u.path[0] == '/');
    assert(u.well_formed());
    lemma_upper_text_is_read_back(u);
    lemma_fragment_params(
        bech32_encoded("EX"@, time_bytes(expiration)),
        bech32_encoded("OH"@, ohttp_keys.compact()),
        bech32_encoded("RK"@, compressed(receiver_pubkey@)),
        time_bytes(expiration),
        ohttp_keys.compact(),
        compressed(receiver_pubkey@),
    );
    law_time_bytes_round_trip(expiration);
    assert(ohttp_keys.compact().skip(1) =~= compressed(ohttp_keys.public_key@));
    assert((UrlModel { path: path_without_last(u.path), fragment: None, ..u }) == directory);
}

impl V2PjParam {
    /// The fragment of the endpoint.
    fn fragment(&self) -> (r: String)
        ensures
            r@ == v2_fragment(self.expiration, self.ohttp_keys, self.receiver_pubkey),
            self@.well_formed() ==> parse_pj(self@.text()) == Ok::<_, PjParseError>(self@),
    {
        let mut oh: Vec<u8> = Vec::new();
        oh.push(self.ohttp_keys.key_id);
        append_bytes(&mut oh, self.ohttp_keys.public_key.to_compressed_bytes().as_slice());
        assert(oh@ =~= self.ohttp_keys.compact());
        let mut text = encode_no_checksum("EX", &encode_time(self.expiration));
        let oh_text = encode_no_checksum("OH", &oh);
        let rk_text = encode_no_checksum("RK", &self.receiver_pubkey.to_compressed_bytes());
        let id_text = self.id.as_string();
        text.push('-');
        text.append(&oh_text);
        text.push('-');
        text.append(&rk_text);
        proof {
            assert(text@ =~= v2_fragment(self.expiration, self.ohttp_keys, self.receiver_pubkey));
            if self@.well_formed() {
                lemma_key_of_compressed(self.ohttp_keys.public_key);
                lemma_key_of_compressed(self.receiver_pubkey);
                lemma_v2_is_read_back(
                    self.directory@,
                    self.id@,
                    self.expiration,
                    self.ohttp_keys,
                    self.receiver_pubkey,
                );
            }
        }
        text
    }

    /// The URL of the mailbox, with the parameters in its fragment.
    pub fn endpoint(&self) -> (r: Url)
        ensures
            r@ == self@.endpoint(),
            self@.well_formed() ==> parse_pj(self@.text()) == Ok::<_, PjParseError>(self@),
            self.directory@.well_formed() ==> r@.well_formed(),
    {
        let fragment = self.fragment();
        let mailbox = mailbox_endpoint(&self.directory, &self.id);
        Url { fragment: Some(fragment), ..mailbox }
    }
}

impl PjParam {
    /// Reads a `pj` parameter.
    pub fn parse(s: &str) -> (r: Result<PjParam, PjParseError>)
        ensures
            match parse_pj(s@) {
                Ok(m) => r is Ok && r->Ok_0@ == m,
                Err(e) => r == Err::<PjParam, _>(e),
            },
    {
        let u = match Url::parse(s) {
            Ok(u) => u,
            Err(e) => return Err(PjParseError::BadEndpoint(e)),
        };
        let parts = match &u.fragment {
            None => return Ok(PjParam::V1(V1PjParam { endpoint: u })),
            Some(fragment) => split_at_dashes(fragment),
        };
        let path = chars_of(&u.path);
        let slash = find_last_slash(&path);
        let id_from: usize = match slash {
            Some(i) => i + 1,
            None => 0,
        };
        let id_text = string_of(&path, id_from, path.len());
        assert(id_text@ =~= u@.path.skip(last_slash(u@.path) + 1));
        let id = match ShortId::parse(&id_text) {
            Some(id) => id,
            None => return Err(PjParseError::BadShortId),
        };
        let expiration = match find_param(&parts, "EX") {
            Some(b) if b.len() == 4 => decode_time(&b),
            _ => return Err(PjParseError::BadExpiration),
        };
        let ohttp_keys = match find_param(&parts, "OH") {
            Some(b) if b.len() == 34 => {
                let key_bytes = slice_subrange(&b, 1, 34);
                assert(key_bytes@ =~= b@.skip(1));
                match decompress(key_bytes) {
                    Some(public_key) => OhttpKeys { key_id: b[0], public_key },
                    None => return Err(PjParseError::BadOhttpKeys),
                }
            },
            _ => return Err(PjParseError::BadOhttpKeys),
        };
        let receiver_pubkey = match find_param(&parts, "RK") {
            Some(b) if b.len() == 33 => match decompress(&b) {
                Some(key) => key,
                None => return Err(PjParseError::BadReceiverPubkey),
            },
            _ => return Err(PjParseError::BadReceiverPubkey),
        };
        let directory_path = match slash {
            Some(i) if i > 0 => string_of(&path, 0, i),
            _ => {
                let mut p = String::new();
                p.push('/');
                p
            },
        };
        assert(directory_path@ =~= path_without_last(u@.path));
        let directory = Url { path: directory_path, fragment: None, ..u };
        Ok(
            PjParam::V2(V2PjParam { directory, id, expiration, ohttp_keys, receiver_pubkey }),
        )
    }

    /// The URL that the parameter stands for.
    pub fn endpoint_url(&self) -> (r: Url)
        ensures
            r@ == self@.endpoint(),
    {
        match self {
            PjParam::V1(v1) => v1.endpoint.clone(),
            PjParam::V2(v2) => v2.endpoint(),
        }
    }

    /// The text of the URL that the parameter stands for.
    pub fn endpoint(&self) -> (r: String)
        ensures
            r@ == self@.endpoint().text(),
    {
        self.endpoint_url().as_string()
    }

    /// The parameter as text. Where it is well formed, it is read back from the text.
    pub fn as_string(&self) -> (r: String)
        ensures
            r@ == self@.text(),
            self@.well_formed() ==> parse_pj(r@) == Ok::<_, PjParseError>(self@),
    {
        let u = match self {
            PjParam::V1(v1) => v1.endpoint.clone(),
            PjParam::V2(v2) => v2.endpoint(),
        };
        proof {
            if self@ is V1 && self@.well_formed() {
                lemma_upper_text_is_read_back(self@.endpoint());
            }
        }
        let upper = Url {
            scheme: to_upper(&u.scheme),
            authority: to_upper(&u.authority),
            path: u.path,
            query: u.query,
            fragment: u.fragment,
        };
        upper.as_string()
    }
}

/// The four bytes of a time, the highest first, stand for its number; four bytes are read as the time
/// that they stand for.
pub proof fn law_time_is_written_high_first(t: Time, b: Seq<u8>)
    requires
        b.len() == 4,
    ensures
        time_bytes(t).len() == 4,
        ((time_bytes(t)[0] * 256 + time_bytes(t)[1]) * 256 + time_bytes(t)[2]) * 256 + time_bytes(
            t,
        )[3] == t.0,
        time_of_bytes(b).0 == ((b[0] * 256 + b[1]) * 256 + b[2]) * 256 + b[3],
{
}

/// A v2 parameter stands for the URL of its mailbox, with the expiration, the key id and key of the
/// directory, and the receiver's key in the fragment; a v1 parameter for its own endpoint.
pub proof fn law_endpoint_says_the_parameter(m: PjModel)
    ensures
        match m {
            PjModel::V1 { endpoint } => m.endpoint() == endpoint,
            PjModel::V2 { directory, id, expiration, ohttp_keys, receiver_pubkey } => {
                let u = m.endpoint();
                &&& u.scheme == directory.scheme
                &&& u.authority == directory.authority
                &&& u.query == directory.query
                &&& u.path == directory.join_segment(bech32_encoded("ID"@, id)).path
                &&& u.fragment == Some(
                    bech32_encoded("EX"@, time_bytes(expiration)) + seq!['-'] + bech32_encoded(
                        "OH"@,
                        seq![ohttp_keys.key_id] + compressed(ohttp_keys.public_key@),
                    ) + seq!['-'] + bech32_encoded("RK"@, compressed(receiver_pubkey@)),
                )
            },
        },
        m.text() == uppered(m.endpoint().scheme) + "://"@ + uppered(m.endpoint().authority)
            + m.endpoint().path + (match m.endpoint().query {
            Some(q) => seq!['?'] + q,
            None => Seq::empty(),
        }) + (match m.endpoint().fragment {
            Some(f) => seq!['#'] + f,
            None => Seq::empty(),
        }),
{
    let u = m.endpoint();
    let front = uppered(u.scheme) + "://"@ + uppered(u.authority) + u.path;
    let q = match u.query {
        Some(q) => seq!['?'] + q,
        None => Seq::empty(),
    };
    let f = match u.fragment {
        Some(f) => seq!['#'] + f,
        None => Seq::empty(),
    };
    assert(m.text() == front + (q + f));
    assert(front + (q + f) =~= front + q + f);
}

/// The parts between the dashes, with a dash between each two of them, are the text; none of them holds
/// a dash.
pub proof fn law_parts_make_up_the_text(s: Seq<char>)
    ensures
        split_dashes(s).len() > 0,
        joined(split_dashes(s)) == s,
        forall|k: int, i: int|
            0 <= k < split_dashes(s).len() && 0 <= i < split_dashes(s)[k].len()
                ==> #[trigger] split_dashes(s)[k][i] != '-',
    decreases s.len(),
{
    if s.len() > 0 {
        let front = s.drop_last();
        let rest = split_dashes(front);
        law_parts_make_up_the_text(front);
        let parts = split_dashes(s);
        if s.last() == '-' {
            assert(parts.drop_last() =~= rest);
            assert(joined(parts) =~= joined(rest) + seq!['-']);
            assert(s =~= front.push('-'));
        } else {
            let last = rest.last();
            assert(parts.drop_last() =~= rest.drop_last());
            assert(parts.last() =~= last.push(s.last()));
            if rest.len() == 1 {
                assert(joined(rest) =~= last);
                assert(joined(parts) =~= last.push(s.last()));
            } else {
                assert(joined(rest) == joined(rest.drop_last()) + seq!['-'] + last);
                assert(joined(parts) == joined(parts.drop_last()) + seq!['-'] + parts.last());
                assert(joined(parts) =~= joined(rest).push(s.last()));
            }
            assert(s =~= front.push(s.last()));
        }
        assert forall|k: int, i: int|
            0 <= k < parts.len() && 0 <= i < parts[k].len() implies #[trigger] parts[k][i] != '-' by {
            if k < rest.len() - 1 {
                assert(parts[k] == rest[k]);
                assert(rest[k][i] != '-');
            } else if s.last() == '-' {
                if k < rest.len() {
                    assert(parts[k] == rest[k]);
                    assert(rest[k][i] != '-');
                }
            } else if i < rest.last().len() {
                assert(rest[rest.len() - 1][i] != '-');
            }
        }
    } else {
        assert(split_dashes(s) =~= seq![Seq::empty()]);
        assert(joined(split_dashes(s)) =~= s);
    }
}

/// Some parts with a dash between each two of them.
pub open spec fn joined(parts: Seq<Seq<char>>) -> Seq<char>
    decreases parts.len(),
{
    if parts.len() == 0 {
        Seq::empty()
    } else if parts.len() == 1 {
        parts[0]
    } else {
        joined(parts.drop_last()) + seq!['-'] + parts.last()
    }
}

/// A parameter is read off the first part with its name and the separator, and not off any other.
pub proof fn law_parameter_is_read_off_its_part(parts: Seq<Seq<char>>, hrp: Seq<char>, i: int)
    requires
        0 <= i < parts.len(),
        parts[i].len() > hrp.len(),
        parts[i].take(hrp.len() as int) == hrp,
        parts[i][hrp.len() as int] == '1',
        forall|j: int| 0 <= j < i ==> !starts_with_hrp(#[trigger] parts[j], hrp),
    ensures
        fragment_param(parts, hrp) == (match bech32_decoded(parts[i]) {
            Some((_, data)) => Some(data),
            None => None::<Seq<u8>>,
        }),
    decreases i,
{
    if i > 0 {
        assert(!starts_with_hrp(parts[0], hrp));
        let rest = parts.skip(1);
        assert forall|j: int| 0 <= j < i - 1 implies !starts_with_hrp(#[trigger] rest[j], hrp) by {
            assert(rest[j] == parts[j + 1]);
        }
        law_parameter_is_read_off_its_part(rest, hrp, i - 1);
    }
}

/// A parameter that no part has is missing.
pub proof fn law_parameter_is_missing(parts: Seq<Seq<char>>, hrp: Seq<char>)
    requires
        forall|j: int| 0 <= j < parts.len() ==> !starts_with_hrp(#[trigger] parts[j], hrp),
    ensures
        fragment_param(parts, hrp) is None,
    decreases parts.len(),
{
    if parts.len() > 0 {
        assert(!starts_with_hrp(parts[0], hrp));
        let rest = parts.skip(1);
        assert forall|j: int| 0 <= j < rest.len() implies !starts_with_hrp(
            #[trigger] rest[j],
            hrp,
        ) by {
            assert(rest[j] == parts[j + 1]);
        }
        law_parameter_is_missing(rest, hrp);
    }
}

/// The last slash of a text: there is one at that position and none behind it; -1 where there is none.
pub proof fn law_last_slash_is_the_last(s: Seq<char>)
    ensures
        -1 <= last_slash(s) < s.len(),
        last_slash(s) >= 0 ==> s[last_slash(s)] == '/',
        forall|j: int| last_slash(s) < j < s.len() ==> #[trigger] s[j] != '/',
    decreases s.len(),
{
    if s.len() > 0 && s.last() != '/' {
        let front = s.drop_last();
        law_last_slash_is_the_last(front);
        assert forall|j: int| last_slash(s) < j < s.len() implies #[trigger] s[j] != '/' by {
            if j < front.len() {
                assert(front[j] == s[j]);
            }
        }
    }
}

/// How a text is read as a parameter: one that is no URL is refused as such; one without a fragment is a
/// v1 parameter; of one with a fragment, the last path segment, the expiration, the directory's key and
/// the receiver's key are read in this order, and the first that cannot be read is the reason of the
/// refusal. What is read is the URL without its last segment and fragment as the directory.
pub proof fn law_parameter_is_read(s: Seq<char>)
    ensures
        match parse_url(s) {
            Err(e) => parse_pj(s) == Err::<PjModel, _>(PjParseError::BadEndpoint(e)),
            Ok(u) => match u.fragment {
                None => parse_pj(s) matches Ok(PjModel::V1 { endpoint }) && endpoint == u,
                Some(fragment) => {
                    let parts = split_dashes(fragment);
                    let id = parse_short_id(u.path.skip(last_slash(u.path) + 1));
                    let ex = fragment_param(parts, "EX"@);
                    let oh = fragment_param(parts, "OH"@);
                    let rk = fragment_param(parts, "RK"@);
                    let time_given = ex matches Some(b) && b.len() == 4;
                    let keys_given = oh matches Some(b) && b.len() == 34 && exists|
                        key: HpkePublicKey,
                    |
                        key.valid() && #[trigger] compressed(key@) == b.skip(1);
                    let key_given = rk matches Some(b) && b.len() == 33 && exists|key: HpkePublicKey|
                        key.valid() && #[trigger] compressed(key@) == b;
                    match parse_pj(s) {
                        Err(PjParseError::BadShortId) => id is None,
                        Err(PjParseError::BadExpiration) => id is Some && !time_given,
                        Err(PjParseError::BadOhttpKeys) => id is Some && time_given && !keys_given,
                        Err(PjParseError::BadReceiverPubkey) => id is Some && time_given
                            && keys_given && !key_given,
                        Err(PjParseError::BadEndpoint(_)) => false,
                        Ok(PjModel::V1 { .. }) => false,
                        Ok(
                            PjModel::V2 { directory, id: read, expiration, ohttp_keys, receiver_pubkey },
                        ) => {
                            &&& id == Some(read)
                            &&& time_given && keys_given && key_given
                            &&& expiration == time_of_bytes(ex->0)
                            &&& ohttp_keys.key_id == oh->0[0]
                            &&& ohttp_keys.public_key.valid() && compressed(
                                ohttp_keys.public_key@,
                            ) == oh->0.skip(1)
                            &&& receiver_pubkey.valid() && compressed(receiver_pubkey@) == rk->0
                            &&& directory.scheme == u.scheme
                            &&& directory.authority == u.authority
                            &&& directory.query == u.query
                            &&& directory.fragment is None
                            &&& directory.path == (if last_slash(u.path) > 0 {
                                u.path.take(last_slash(u.path))
                            } else {
                                seq!['/']
                            })
                        },
                    }
                },
            },
        },
{
}

/// What is said of a parameter is what it holds, part by part.
pub proof fn law_parameter_is_what_is_said(p: PjParam)
    ensures
        match p {
            PjParam::V1(v1) => p@ matches PjModel::V1 { endpoint } && endpoint == v1.endpoint@,
            PjParam::V2(v2) => {
                &&& p@ == v2@
                &&& p@ matches PjModel::V2 { directory, id, expiration, ohttp_keys, receiver_pubkey }
                &&& directory == v2.directory@
                &&& id == v2.id@
                &&& expiration == v2.expiration
                &&& ohttp_keys == v2.ohttp_keys
                &&& receiver_pubkey == v2.receiver_pubkey
            },
        },
{
}

/// The texts of some parts, one by one.
pub proof fn law_parts_are_what_is_said(parts: Seq<String>)
    ensures
        views(parts).len() == parts.len(),
        forall|i: int| 0 <= i < parts.len() ==> #[trigger] views(parts)[i] == parts[i]@,
{
}

} // verus!
