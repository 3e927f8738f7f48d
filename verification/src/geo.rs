//! Country codes of IP addresses, each looked up at most once.

use std::collections::HashMap;
use vstd::prelude::*;
use vstd::string::StringExecFns;

use crate::peers::Ip;

verus! {

broadcast use vstd::std_specs::hash::group_hash_axioms;

/// The country codes that are known. An empty code says that a lookup failed.
pub struct GeoCache {
    v4: HashMap<u32, String>,
    v6: HashMap<u128, String>,
}

/// What is known of an IP address.
pub enum Country {
    /// This ISO 3166-1 alpha-2 code; empty where a lookup failed.
    Known(String),
    /// An address that no other network knows.
    Local,
    /// Nothing yet.
    Unknown,
}

impl View for GeoCache {
    type V = Map<Ip, Seq<char>>;

    closed spec fn view(&self) -> Map<Ip, Seq<char>> {
        Map::new(
            |ip: Ip|
                match ip {
                    Ip::V4(bits) => self.v4@.dom().contains(bits),
                    Ip::V6(bits) => self.v6@.dom().contains(bits),
                },
            |ip: Ip|
                match ip {
                    Ip::V4(bits) => self.v4@[bits]@,
                    Ip::V6(bits) => self.v6@[bits]@,
                },
        )
    }
}

/// Whether the country of an address has to be asked for.
pub open spec fn asks(cache: Map<Ip, Seq<char>>, ip: Ip) -> bool {
    !cache.dom().contains(ip) && !ip.local()
}

/// An address is looked up at most once: after the answer was recorded, whatever
/// is recorded later, it is not asked for again and the answer stays.
pub proof fn law_looked_up_at_most_once(
    cache: Map<Ip, Seq<char>>,
    ip: Ip,
    code: Seq<char>,
    later: Seq<(Ip, Seq<char>)>,
    n: int,
)
    requires
        0 <= n <= later.len(),
        forall|i: int|
            0 <= i < later.len() ==> asks(
                all_recorded(cache.insert(ip, code), later, i),
                (#[trigger] later[i]).0,
            ),
    ensures
        !asks(all_recorded(cache.insert(ip, code), later, n), ip),
        all_recorded(cache.insert(ip, code), later, n)[ip] == code,
    decreases n,
{
    if n > 0 {
        law_looked_up_at_most_once(cache, ip, code, later, n - 1);
        assert(asks(all_recorded(cache.insert(ip, code), later, n - 1), later[n - 1].0));
    }
}

/// The cache once the first `n` of some answers have been recorded.
pub open spec fn all_recorded(
    cache: Map<Ip, Seq<char>>,
    answers: Seq<(Ip, Seq<char>)>,
    n: int,
) -> Map<Ip, Seq<char>>
    decreases n,
{
    if n <= 0 {
        cache
    } else {
        all_recorded(cache, answers, n - 1).insert(answers[n - 1].0, answers[n - 1].1)
    }
}

/// The text that a JSON object holds under a name, as `serde_json` reads it.
pub uninterp spec fn json_text(body: Seq<u8>, name: Seq<char>) -> Option<Seq<char>>;

/// Calls `serde_json::from_slice`, then `Value::get` with the name and
/// `Value::as_str` on what it finds. The result is a function of the bytes and of
/// the name; there is none where the bytes are no JSON, where they hold no object
/// with that name, or where the name does not stand for a text.
#[verifier::external_body]
fn json_text_field(body: &[u8], name: &str) -> (text: Option<String>)
    ensures
        match text {
            Some(t) => json_text(body@, name@) == Some(t@),
            None => json_text(body@, name@) is None,
        },
{
    let value: serde_json::Value = serde_json::from_slice(body).ok()?;
    value.get(name)?.as_str().map(String::from)
}

/// The code that an answer stands for: empty where there is none.
pub open spec fn code_of(answer: Option<Seq<char>>) -> Seq<char> {
    match answer {
        Some(code) => code,
        None => Seq::empty(),
    }
}

/// What the answer of the lookup service says, if it came.
pub open spec fn answer_in(body: Option<Seq<u8>>) -> Option<Seq<char>> {
    match body {
        Some(bytes) => json_text(bytes, "countryCode"@),
        None => None,
    }
}

/// The address of the lookup service for an IP address given as text.
pub fn lookup_url(ip_text: &str) -> (url: String)
    ensures
        url@ == "http://ip-api.com/json/"@ + ip_text@ + "?fields=countryCode"@,
{
    let mut url = String::from_str("http://ip-api.com/json/");
    url.append(ip_text);
    url.append("?fields=countryCode");
    url
}

/// The content of an optional text.
pub open spec fn text_model(text: Option<String>) -> Option<Seq<char>> {
    match text {
        Some(t) => Some(t@),
        None => None,
    }
}

impl GeoCache {
    /// A cache that knows nothing.
    pub fn new() -> (cache: Self)
        ensures
            cache@ == Map::<Ip, Seq<char>>::empty(),
    {
        let cache = GeoCache { v4: HashMap::new(), v6: HashMap::new() };
        assert(cache@ =~= Map::<Ip, Seq<char>>::empty());
        cache
    }

    /// What is known of an address. What was recorded comes first.
    pub fn country(&self, ip: Ip) -> (country: Country)
        ensures
            match country {
                Country::Known(code) => self@.dom().contains(ip) && code@ == self@[ip],
                Country::Local => !self@.dom().contains(ip) && ip.local(),
                Country::Unknown => asks(self@, ip),
            },
    {
        let found = match ip {
            Ip::V4(bits) => self.v4.get(&bits),
            Ip::V6(bits) => self.v6.get(&bits),
        };
        match found {
            Some(code) => Country::Known(code.clone()),
            None => {
                if ip.is_local() {
                    Country::Local
                } else {
                    Country::Unknown
                }
            },
        }
    }

    /// Records the answer to a lookup, an empty code where there is none, and
    /// returns the code.
    pub fn record(&mut self, ip: Ip, answer: Option<String>) -> (code: String)
        ensures
            code@ == code_of(text_model(answer)),
            final(self)@ == old(self)@.insert(ip, code@),
    {
        let code = match answer {
            Some(text) => text,
            None => String::new(),
        };
        match ip {
            Ip::V4(bits) => {
                self.v4.insert(bits, code.clone());
            },
            Ip::V6(bits) => {
                self.v6.insert(bits, code.clone());
            },
        }
        assert(self@ =~= old(self)@.insert(ip, code@));
        code
    }

    /// Records what the lookup service sent, and returns the country code: empty
    /// where nothing came or the answer names none.
    pub fn record_body(&mut self, ip: Ip, body: Option<Vec<u8>>) -> (code: String)
        ensures
            code@ == code_of(
                answer_in(
                    match body {
                        Some(bytes) => Some(bytes@),
                        None => None,
                    },
                ),
            ),
            final(self)@ == old(self)@.insert(ip, code@),
    {
        let answer = match body {
            Some(bytes) => json_text_field(bytes.as_slice(), "countryCode"),
            None => None,
        };
        self.record(ip, answer)
    }
}

} // verus!
