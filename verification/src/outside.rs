//! What the library takes on trust from `std` and from the crates it builds on:
//! each item here states, without proof, what one outside function does.
use crate::data_plane::filter::auth::TokenAlgorithm;
use crate::data_plane::ip::{IpAddr, IpNet};
use crate::text::{opt_text, texts};
use jsonwebtoken::DecodingKey;
use regex::Regex;
use std::collections::hash_map::DefaultHasher;
use std::hash::Hash;
use std::time::{Duration, Instant, SystemTime, SystemTimeError};
use vstd::prelude::*;

verus! {

// ---- regular expressions ----

/// `regex::Regex`: a compiled regular expression.
#[verifier::external_type_specification]
#[verifier::external_body]
pub struct ExRegex(regex::Regex);

/// `regex::Error`: why a pattern does not compile.
#[verifier::external_type_specification]
#[verifier::external_body]
pub struct ExRegexError(regex::Error);

/// What `Regex::new` returns for a pattern.
pub uninterp spec fn regex_new(pattern: Seq<char>) -> Result<Regex, regex::Error>;

/// The groups of the first match of an expression in a text, the whole match
/// first, or `None` where nothing matches: what `Regex::captures` returns.
pub uninterp spec fn regex_groups(re: Regex, text: Seq<char>) -> Option<Seq<Option<Seq<char>>>>;

/// The message of a `regex::Error`: what its `Display` writes.
pub uninterp spec fn regex_error_message(e: regex::Error) -> Seq<char>;

/// The texts of a list of groups.
pub open spec fn group_texts(groups: Seq<Option<String>>) -> Seq<Option<Seq<char>>> {
    groups.map_values(|g: Option<String>| opt_text(g))
}

/// `Regex::new`: compiles a pattern, or says why it is none. The result depends on
/// the pattern alone.
#[verifier::external_body]
pub(crate) fn compile_regex(pattern: &str) -> (r: Result<Regex, regex::Error>)
    ensures
        r == regex_new(pattern@),
{
    Regex::new(pattern)
}

/// `Regex::captures`: the groups of the first match in `text`; the whole match is
/// always among them. The result depends on the expression and the text alone.
#[verifier::external_body]
pub(crate) fn regex_captures(re: &Regex, text: &str) -> (r: Option<Vec<Option<String>>>)
    ensures
        match r {
            Some(groups) => groups@.len() > 0 && regex_groups(*re, text@) == Some(
                group_texts(groups@),
            ),
            None => regex_groups(*re, text@) is None,
        },
{
    match re.captures(text) {
        Some(c) => Some(c.iter().map(|g| g.map(|m| m.as_str().to_owned())).collect()),
        None => None,
    }
}

/// `Regex::is_match`: whether the expression matches somewhere in `text`, that is,
/// whether there are captures.
#[verifier::external_body]
pub(crate) fn regex_is_match(re: &Regex, text: &str) -> (r: bool)
    ensures
        r == (regex_groups(*re, text@) is Some),
{
    re.is_match(text)
}

/// `Display` of `regex::Error`. The text depends on the error alone.
#[verifier::external_body]
pub(crate) fn regex_error_text(e: &regex::Error) -> (r: String)
    ensures
        r@ == regex_error_message(*e),
{
    e.to_string()
}

// ---- addresses ----

/// Why a text is no socket address, or `None` where it is one: what `str::parse`
/// returns for `SocketAddr`, with the error as text.
pub uninterp spec fn socket_addr_error(s: Seq<char>) -> Option<Seq<char>>;

/// The address that a text denotes, if any: what `str::parse` returns for `IpAddr`.
pub uninterp spec fn ip_address(s: Seq<char>) -> Option<IpAddr>;

/// The block that a text denotes in CIDR notation, if any: what `str::parse`
/// returns for `ipnet::IpNet`.
pub uninterp spec fn cidr_block(s: Seq<char>) -> Option<IpNet>;

/// `str::parse` for `SocketAddr`: whether a text is an address "ip:port", and the
/// error as text where it is not. The result depends on the text alone.
#[verifier::external_body]
pub(crate) fn parse_socket_addr(addr: &str) -> (r: Result<(), String>)
    ensures
        match r {
            Ok(_) => socket_addr_error(addr@) is None,
            Err(e) => socket_addr_error(addr@) == Some(e@),
        },
{
    match addr.parse::<core::net::SocketAddr>() {
        Ok(_) => Ok(()),
        Err(e) => Err(e.to_string()),
    }
}

/// `str::parse` for `IpAddr`: the address as its family and its bits. The result
/// depends on the text alone.
#[verifier::external_body]
pub(crate) fn parse_ip(s: &str) -> (r: Option<IpAddr>)
    ensures
        r == ip_address(s@),
{
    match s.parse::<core::net::IpAddr>() {
        Ok(core::net::IpAddr::V4(a)) => Some(IpAddr::V4(u32::from(a))),
        Ok(core::net::IpAddr::V6(a)) => Some(IpAddr::V6(u128::from(a))),
        Err(_) => None,
    }
}

/// `str::parse` for `ipnet::IpNet`: the address and the prefix length of a CIDR
/// block. A prefix is no longer than the address. The result depends on the text
/// alone.
#[verifier::external_body]
pub(crate) fn parse_cidr(s: &str) -> (r: Option<IpNet>)
    ensures
        r == cidr_block(s@),
        r matches Some(net) ==> net.valid(),
{
    match s.parse::<ipnet::IpNet>() {
        Ok(ipnet::IpNet::V4(n)) => {
            Some(IpNet { addr: IpAddr::V4(u32::from(n.addr())), prefix_len: n.prefix_len() })
        },
        Ok(ipnet::IpNet::V6(n)) => {
            Some(IpNet { addr: IpAddr::V6(u128::from(n.addr())), prefix_len: n.prefix_len() })
        },
        Err(_) => None,
    }
}

// ---- keys of signed tokens ----

/// `jsonwebtoken::DecodingKey`: a key that checks signatures.
#[verifier::external_type_specification]
#[verifier::external_body]
pub struct ExDecodingKey(jsonwebtoken::DecodingKey);

/// `jsonwebtoken::errors::Error`: why a text is no such key.
#[verifier::external_type_specification]
#[verifier::external_body]
pub struct ExJwtError(jsonwebtoken::errors::Error);

/// What `DecodingKey::from_rsa_pem` returns for the text of a PEM file.
pub uninterp spec fn rsa_key(pem: Seq<char>) -> Result<DecodingKey, jsonwebtoken::errors::Error>;

/// The message of a `jsonwebtoken::errors::Error`: what its `Display` writes.
pub uninterp spec fn jwt_error_message(e: jsonwebtoken::errors::Error) -> Seq<char>;

/// `DecodingKey::from_rsa_pem`: reads an RSA public key. The result depends on the
/// text alone.
#[verifier::external_body]
pub(crate) fn parse_rsa_key(pem: &str) -> (r: Result<DecodingKey, jsonwebtoken::errors::Error>)
    ensures
        r == rsa_key(pem@),
{
    DecodingKey::from_rsa_pem(pem.as_bytes())
}

/// `Clone` of `DecodingKey`: the same key once more.
#[verifier::external_body]
pub(crate) fn copy_key(key: &DecodingKey) -> (r: DecodingKey)
    ensures
        r == *key,
{
    key.clone()
}

/// `Display` of `jsonwebtoken::errors::Error`. The text depends on the error alone.
#[verifier::external_body]
pub(crate) fn jwt_error_text(e: &jsonwebtoken::errors::Error) -> (r: String)
    ensures
        r@ == jwt_error_message(*e),
{
    e.to_string()
}

/// The claims of a signed token as JSON, if it passes every check but that of the time:
/// what `jsonwebtoken::decode` returns where the token has not expired. The token is of the
/// form of a JSON web token, signed with the algorithm and the key, has the required claims,
/// comes from the issuer, and names no audience where `checks_audience` holds.
pub uninterp spec fn token_claims(
    token: Seq<char>,
    key: DecodingKey,
    algorithm: TokenAlgorithm,
    required_claims: Seq<Seq<char>>,
    issuer: Seq<char>,
    checks_audience: bool,
) -> Option<Seq<char>>;

/// `jsonwebtoken::decode`: verifies a token and returns its claims as JSON text. The claims
/// are returned only for a token that passes every check but that of the time, and then
/// they depend on the arguments alone. Whether such a token has expired depends on the
/// clock, and of that nothing is said: a token that is more than `leeway_secs` beyond its
/// end is refused. The call is made for a clock that stands more than an hour after the
/// start of the Unix era; on an earlier one it panics.
#[verifier::external_body]
pub(crate) fn decode_token(
    token: &str,
    key: &DecodingKey,
    algorithm: TokenAlgorithm,
    required_claims: &Vec<String>,
    issuer: &str,
    leeway_secs: u64,
    checks_audience: bool,
) -> (r: Result<String, jsonwebtoken::errors::Error>)
    requires
        leeway_secs <= 3600,
    ensures
        r matches Ok(claims) ==> token_claims(
            token@,
            *key,
            algorithm,
            texts(required_claims@),
            issuer@,
            checks_audience,
        ) == Some(claims@),
{
    let mut validation = jsonwebtoken::Validation::new(match algorithm {
        TokenAlgorithm::Rs256 => jsonwebtoken::Algorithm::RS256,
    });
    validation.set_required_spec_claims(required_claims);
    validation.set_issuer(&[issuer]);
    validation.leeway = leeway_secs;
    validation.validate_aud = checks_audience;
    match jsonwebtoken::decode::<Box<serde_json::value::RawValue>>(token, key, &validation) {
        Ok(data) => Ok(data.claims.get().to_owned()),
        Err(e) => Err(e),
    }
}

// ---- hashing and text ----

/// What hashing a text writes into a hasher: what `Hash::hash` of `str` does.
pub uninterp spec fn text_hash_input(s: Seq<char>) -> Seq<Seq<u8>>;

/// The upper case of a character: what `char::to_uppercase` yields.
pub uninterp spec fn upper_case(c: char) -> Seq<char>;

/// A list of texts as `Debug` writes it.
pub uninterp spec fn debug_list(list: Seq<Seq<char>>) -> Seq<char>;

/// A text as a JSON string, with its quotes: what `serde_json` writes.
pub uninterp spec fn json_string(s: Seq<char>) -> Seq<char>;

/// `Hash::hash` of `str`: feeds a text to a hasher. What is written depends on the
/// text alone.
#[verifier::external_body]
pub(crate) fn hash_text(s: &str, hasher: &mut DefaultHasher)
    ensures
        final(hasher)@ == old(hasher)@ + text_hash_input(s@),
{
    s.hash(hasher)
}

/// `char::to_uppercase`. The result depends on the character alone.
#[verifier::external_body]
pub(crate) fn to_upper(c: char) -> (r: String)
    ensures
        r@ == upper_case(c),
{
    c.to_uppercase().collect()
}

/// `Debug` of a list of texts. The result depends on the list alone.
#[verifier::external_body]
pub(crate) fn debug_texts(list: &Vec<String>) -> (r: String)
    ensures
        r@ == debug_list(texts(list@)),
{
    format!("{:?}", list)
}

/// `Display` of `serde_json::Value` for a string: the text as JSON. The result
/// depends on the text alone.
#[verifier::external_body]
pub(crate) fn to_json_string(s: &str) -> (r: String)
    ensures
        r@ == json_string(s@),
{
    serde_json::Value::String(s.to_owned()).to_string()
}

// ---- clocks ----

/// `std::time::Instant`: a reading of the monotonic clock.
#[verifier::external_type_specification]
#[verifier::external_body]
pub struct ExInstant(std::time::Instant);

/// `std::time::SystemTime`: a reading of the wall clock.
#[verifier::external_type_specification]
#[verifier::external_body]
pub struct ExSystemTime(std::time::SystemTime);

/// `std::time::SystemTimeError`: a reading that lies before the one it is held to.
#[verifier::external_type_specification]
#[verifier::external_body]
pub struct ExSystemTimeError(std::time::SystemTimeError);

/// The whole seconds of a span: what `Duration::as_secs` returns.
pub uninterp spec fn duration_secs(d: Duration) -> u64;

/// What a span holds beyond its whole seconds, in nanoseconds: what
/// `Duration::subsec_nanos` returns.
pub uninterp spec fn duration_nanos(d: Duration) -> u32;

/// `Instant::now`: nothing is known of a reading.
pub assume_specification[ std::time::Instant::now ]() -> Instant;

/// `Instant::elapsed`: nothing is known of the time that has passed.
pub assume_specification[ std::time::Instant::elapsed ](i: &Instant) -> Duration;

/// `Duration::as_secs`: the whole seconds of a span. The result depends on the span
/// alone.
pub assume_specification[ std::time::Duration::as_secs ](d: &Duration) -> (r: u64)
    ensures
        r == duration_secs(*d),
;

/// `Duration::subsec_nanos`: what a span holds beyond its whole seconds, less than
/// one second. The result depends on the span alone.
pub assume_specification[ std::time::Duration::subsec_nanos ](d: &Duration) -> (r: u32)
    ensures
        r == duration_nanos(*d),
        r < 1_000_000_000,
;

/// `SystemTime::now`: nothing is known of a reading.
pub assume_specification[ std::time::SystemTime::now ]() -> SystemTime;

/// `SystemTime::duration_since`: nothing is known of the distance of two readings.
pub assume_specification[ std::time::SystemTime::duration_since ](
    t: &SystemTime,
    earlier: SystemTime,
) -> Result<Duration, SystemTimeError>;

/// `SystemTimeError::duration`: nothing is known of the distance of two readings.
pub assume_specification[ std::time::SystemTimeError::duration ](e: &SystemTimeError) -> Duration;

/// `std::time::UNIX_EPOCH`: the start of the Unix era.
#[verifier::external_body]
pub(crate) fn unix_epoch() -> SystemTime {
    std::time::UNIX_EPOCH
}

} // verus!
