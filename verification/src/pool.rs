//! The pool side of the pipeline: round information as the pool reports it,
//! the errors the library surfaces, round-change tracking, and the request
//! URLs of the pool's HTTP protocol.

use crate::json::{members_view, spec_lookup, spec_object, Scalar, ScalarValue};
use crate::miner::MinerWork;
use vstd::prelude::*;
use vstd::string::StringExecFns;

verus! {

/// One round's parameters, as decoded from the pool's mining-info response.
#[derive(Clone, Debug)]
pub struct MiningInfo {
    pub generation_signature: String,
    pub base_target: u64,
    pub request_processing_time: i64,
    pub height: u64,
    pub target_deadline: u64,
}

/// What can go wrong between the pool and the library.
#[derive(Clone, Copy, Debug, PartialEq, Eq, Structural)]
pub enum Error {
    /// The generation signature is not a hex string.
    HexDecode,
    /// The HTTP request itself failed; the caller retries.
    HttpTransport,
    /// The pool's response does not decode as mining info.
    HttpDecode,
    /// The pool URL cannot carry the protocol's request path.
    UrlMalformed,
    /// A submission was not accepted after its retries.
    SubmitFailed,
}

/// Tracks the last round seen and detects round changes by generation
/// signature, as the poll loop does each tick.
pub struct RoundTracker {
    pub last: Option<MiningInfo>,
}

/// What one poll tick decided.
pub enum RoundChange {
    /// The signature did not change; nothing to do.
    Unchanged,
    /// A new round: broadcast this work to every worker.
    New(MinerWork),
    /// The new round was adopted, but its signature does not derive work.
    Invalid(Error),
}

impl RoundTracker {
    /// A tracker that has seen no round yet.
    pub fn new() -> (r: RoundTracker)
        ensures
            r.last is None,
    {
        RoundTracker { last: None }
    }

    /// Digests one mining-info response. When the generation signature
    /// equals the last seen one, nothing changes; otherwise the round is
    /// adopted and work is derived for broadcast.
    pub fn observe(&mut self, info: MiningInfo) -> (r: RoundChange)
        ensures
            (old(self).last matches Some(prev) && prev.generation_signature@
                == info.generation_signature@) ==> (r is Unchanged && final(self).last
                == old(self).last),
            !(old(self).last matches Some(prev) && prev.generation_signature@
                == info.generation_signature@) ==> {
                &&& final(self).last matches Some(cur) && cur == info
                &&& (r matches RoundChange::New(w) <==> MinerWork::derivable(info))
                &&& (r matches RoundChange::New(w) ==> w.derived_from(info))
                &&& (r matches RoundChange::Invalid(e) ==> e == Error::HexDecode)
            },
    {
        let same = match &self.last {
            Some(prev) => string_eq(&prev.generation_signature, &info.generation_signature),
            None => false,
        };
        if same {
            RoundChange::Unchanged
        } else {
            let derived = MinerWork::from_mining_info(&info);
            self.last = Some(info);
            match derived {
                Ok(w) => RoundChange::New(w),
                Err(e) => RoundChange::Invalid(e),
            }
        }
    }
}

/// Compares two strings by their characters.
fn string_eq(a: &String, b: &String) -> (r: bool)
    ensures
        r == (a@ == b@),
{
    a.eq(b)
}

/// A base URL with one trailing slash removed, so that appending a path
/// segment never doubles the slash.
pub open spec fn spec_strip_slash(base: Seq<char>) -> Seq<char> {
    if base.len() > 0 && base.last() == '/' {
        base.drop_last()
    } else {
        base
    }
}

/// The mining-info request URL under a pool's base URL.
pub open spec fn spec_mining_info_url(base: Seq<char>) -> Seq<char> {
    spec_strip_slash(base) + "/burst?requestType=getMiningInfo"@
}

/// The nonce-submission request URL under a pool's base URL, carrying the
/// account, the nonce and the pool's pass phrase.
pub open spec fn spec_submit_url(
    base: Seq<char>,
    account_id: u64,
    nonce: u64,
    secret_phrase: Seq<char>,
) -> Seq<char> {
    spec_strip_slash(base) + "/burst?requestType=submitNonce&accountId="@
        + crate::decimal::dec_chars(account_id as int) + "&nonce="@ + crate::decimal::dec_chars(
        nonce as int,
    ) + "&secretPhrase="@ + secret_phrase
}

/// The base URL with one trailing slash removed.
fn strip_slash(base: &str) -> (r: &str)
    ensures
        r@ == spec_strip_slash(base@),
{
    let len = base.unicode_len();
    if len > 0 && base.get_char(len - 1) == '/' {
        let r = base.substring_char(0, len - 1);
        proof {
            assert(r@ =~= base@.drop_last());
        }
        r
    } else {
        base
    }
}

/// Builds the mining-info request URL for a pool's base URL.
pub fn mining_info_url(base: &str) -> (r: String)
    ensures
        r@ == spec_mining_info_url(base@),
{
    let mut url = strip_slash(base).to_owned();
    url.append("/burst?requestType=getMiningInfo");
    url
}

/// Builds the nonce-submission URL for a pool's base URL. The pass phrase
/// is the pool's; callers configure it rather than bake one in.
pub fn submit_url(base: &str, account_id: u64, nonce: u64, secret_phrase: &str) -> (r: String)
    ensures
        r@ == spec_submit_url(base@, account_id, nonce, secret_phrase@),
{
    let mut url = strip_slash(base).to_owned();
    url.append("/burst?requestType=submitNonce&accountId=");
    crate::decimal::push_decimal(&mut url, account_id);
    url.append("&nonce=");
    crate::decimal::push_decimal(&mut url, nonce);
    url.append("&secretPhrase=");
    url.append(secret_phrase);
    proof {
        assert(url@ =~= spec_submit_url(base@, account_id, nonce, secret_phrase@));
    }
    url
}

/// The scalar a member slot holds, if any.
pub open spec fn opt_scalar(v: Option<ScalarValue>) -> Option<Scalar> {
    match v {
        Some(s) => Some(s.view_scalar()),
        None => None,
    }
}

/// A member read as a string.
pub open spec fn scalar_string(v: Option<Scalar>) -> Option<Seq<char>> {
    match v {
        Some(Scalar::Str(t)) => Some(t),
        _ => None,
    }
}

/// A member read as a u64: a non-negative number, or — as some pools send
/// them — a string holding one.
pub open spec fn scalar_u64(v: Option<Scalar>) -> Option<u64> {
    match v {
        Some(Scalar::Num(neg, d)) => if neg {
            None
        } else {
            crate::decimal::parse_u64_digits(d)
        },
        Some(Scalar::Str(t)) => crate::decimal::parse_u64_digits(t),
        _ => None,
    }
}

/// A member read as an i64: a number of either sign within the i64 range.
pub open spec fn scalar_i64(v: Option<Scalar>) -> Option<i64> {
    match v {
        Some(Scalar::Num(neg, d)) => match crate::decimal::parse_u64_digits(d) {
            Some(u) => if neg {
                if u <= 0x8000000000000000 {
                    Some((-(u as int)) as i64)
                } else {
                    None
                }
            } else {
                if u <= 0x7fffffffffffffff {
                    Some(u as i64)
                } else {
                    None
                }
            },
            None => None,
        },
        _ => None,
    }
}

/// The text decodes as mining info: it is one JSON object whose five fields
/// all read back under the protocol's keys.
pub open spec fn mining_info_decodable(s: Seq<char>) -> bool {
    &&& spec_object(s) is Some
    &&& scalar_string(spec_lookup(spec_object(s)->0, "generationSignature"@)) is Some
    &&& scalar_u64(spec_lookup(spec_object(s)->0, "baseTarget"@)) is Some
    &&& scalar_i64(spec_lookup(spec_object(s)->0, "requestProcessingTime"@)) is Some
    &&& scalar_u64(spec_lookup(spec_object(s)->0, "height"@)) is Some
    &&& scalar_u64(spec_lookup(spec_object(s)->0, "targetDeadline"@)) is Some
}

/// `info` holds exactly the field values the text's object carries.
pub open spec fn mining_info_decodes(s: Seq<char>, info: MiningInfo) -> bool {
    &&& spec_object(s) is Some
    &&& scalar_string(spec_lookup(spec_object(s)->0, "generationSignature"@)) == Some(
        info.generation_signature@,
    )
    &&& scalar_u64(spec_lookup(spec_object(s)->0, "baseTarget"@)) == Some(info.base_target)
    &&& scalar_i64(spec_lookup(spec_object(s)->0, "requestProcessingTime"@)) == Some(
        info.request_processing_time,
    )
    &&& scalar_u64(spec_lookup(spec_object(s)->0, "height"@)) == Some(info.height)
    &&& scalar_u64(spec_lookup(spec_object(s)->0, "targetDeadline"@)) == Some(info.target_deadline)
}

/// A member slot read as a u64, tolerating a stringified number.
fn read_u64_slot(v: &Option<ScalarValue>) -> (r: Option<u64>)
    ensures
        r == scalar_u64(opt_scalar(*v)),
{
    match v {
        Some(ScalarValue::Num(neg, d)) => {
            proof {
                assert(d@.subrange(0, d@.len() as int) =~= d@);
            }
            if *neg {
                None
            } else {
                crate::decimal::parse_u64(d.as_str(), 0, d.as_str().unicode_len())
            }
        },
        Some(ScalarValue::Str(t)) => {
            proof {
                assert(t@.subrange(0, t@.len() as int) =~= t@);
            }
            crate::decimal::parse_u64(t.as_str(), 0, t.as_str().unicode_len())
        },
        _ => None,
    }
}

/// A member slot read as an i64.
fn read_i64_slot(v: &Option<ScalarValue>) -> (r: Option<i64>)
    ensures
        r == scalar_i64(opt_scalar(*v)),
{
    match v {
        Some(ScalarValue::Num(neg, d)) => {
            proof {
                assert(d@.subrange(0, d@.len() as int) =~= d@);
            }
            let u = match crate::decimal::parse_u64(d.as_str(), 0, d.as_str().unicode_len()) {
                Some(u) => u,
                None => {
                    return None;
                },
            };
            if *neg {
                if u <= 0x8000000000000000 {
                    Some((-(u as i128)) as i64)
                } else {
                    None
                }
            } else {
                if u <= 0x7fffffffffffffff {
                    Some(u as i64)
                } else {
                    None
                }
            }
        },
        _ => None,
    }
}

impl MiningInfo {
    /// Decodes the pool's mining-info response: one JSON object carrying
    /// `generationSignature` (string), `baseTarget`, `height` and
    /// `targetDeadline` (u64, possibly stringified) and
    /// `requestProcessingTime` (i64). Unknown members are ignored; a missing
    /// or unreadable field fails the decode.
    #[verifier::rlimit(50)]
    pub fn decode(s: &str) -> (r: Result<MiningInfo, Error>)
        ensures
            r is Ok <==> mining_info_decodable(s@),
            r matches Ok(info) ==> mining_info_decodes(s@, info),
            r matches Err(e) ==> e == Error::HttpDecode,
    {
        let mut ms = match crate::json::parse_object(s) {
            Some(ms) => ms,
            None => {
                return Err(Error::HttpDecode);
            },
        };
        proof {
            reveal_strlit("generationSignature");
            reveal_strlit("baseTarget");
            reveal_strlit("requestProcessingTime");
            reveal_strlit("height");
            reveal_strlit("targetDeadline");
        }
        let ghost all: Seq<(Seq<char>, Scalar)> = members_view(ms@);
        let mut sig_slot: Option<ScalarValue> = None;
        let mut bt_slot: Option<ScalarValue> = None;
        let mut rpt_slot: Option<ScalarValue> = None;
        let mut h_slot: Option<ScalarValue> = None;
        let mut td_slot: Option<ScalarValue> = None;
        while ms.len() > 0
            invariant
                spec_lookup(all, "generationSignature"@) == (match sig_slot {
                    Some(v) => Some(v.view_scalar()),
                    None => spec_lookup(members_view(ms@), "generationSignature"@),
                }),
                spec_lookup(all, "baseTarget"@) == (match bt_slot {
                    Some(v) => Some(v.view_scalar()),
                    None => spec_lookup(members_view(ms@), "baseTarget"@),
                }),
                spec_lookup(all, "requestProcessingTime"@) == (match rpt_slot {
                    Some(v) => Some(v.view_scalar()),
                    None => spec_lookup(members_view(ms@), "requestProcessingTime"@),
                }),
                spec_lookup(all, "height"@) == (match h_slot {
                    Some(v) => Some(v.view_scalar()),
                    None => spec_lookup(members_view(ms@), "height"@),
                }),
                spec_lookup(all, "targetDeadline"@) == (match td_slot {
                    Some(v) => Some(v.view_scalar()),
                    None => spec_lookup(members_view(ms@), "targetDeadline"@),
                }),
            decreases ms@.len(),
        {
            let ghost prev = ms@;
            let (k, v) = match ms.pop() {
                Some(m) => m,
                None => {
                    proof {
                        assert(false);
                    }
                    return Err(Error::HttpDecode);
                },
            };
            proof {
                reveal_strlit("generationSignature");
                reveal_strlit("baseTarget");
                reveal_strlit("requestProcessingTime");
                reveal_strlit("height");
                reveal_strlit("targetDeadline");
                assert(prev =~= ms@.push((k, v)));
                assert(members_view(prev).drop_last() =~= members_view(ms@));
                assert(members_view(prev).len() == ms@.len() + 1);
                assert(members_view(prev).last() == (k@, v.view_scalar()));
                crate::json::lemma_lookup_unstep(members_view(prev), "generationSignature"@);
                crate::json::lemma_lookup_unstep(members_view(prev), "baseTarget"@);
                crate::json::lemma_lookup_unstep(members_view(prev), "requestProcessingTime"@);
                crate::json::lemma_lookup_unstep(members_view(prev), "height"@);
                crate::json::lemma_lookup_unstep(members_view(prev), "targetDeadline"@);
                assert("generationSignature"@.len() == 19);
                assert("baseTarget"@.len() == 10);
                assert("requestProcessingTime"@.len() == 21);
                assert("height"@.len() == 6);
                assert("targetDeadline"@.len() == 14);
            }
            if sig_slot.is_none() && crate::strings::str_eq(k.as_str(), "generationSignature") {
                sig_slot = Some(v);
            } else if bt_slot.is_none() && crate::strings::str_eq(k.as_str(), "baseTarget") {
                bt_slot = Some(v);
            } else if rpt_slot.is_none() && crate::strings::str_eq(
                k.as_str(),
                "requestProcessingTime",
            ) {
                rpt_slot = Some(v);
            } else if h_slot.is_none() && crate::strings::str_eq(k.as_str(), "height") {
                h_slot = Some(v);
            } else if td_slot.is_none() && crate::strings::str_eq(k.as_str(), "targetDeadline") {
                td_slot = Some(v);
            }
        }
        proof {
            assert(members_view(ms@) =~= Seq::<(Seq<char>, Scalar)>::empty());
        }
        let generation_signature = match sig_slot {
            Some(ScalarValue::Str(t)) => t,
            _ => {
                return Err(Error::HttpDecode);
            },
        };
        let base_target = match read_u64_slot(&bt_slot) {
            Some(u) => u,
            None => {
                return Err(Error::HttpDecode);
            },
        };
        let request_processing_time = match read_i64_slot(&rpt_slot) {
            Some(u) => u,
            None => {
                return Err(Error::HttpDecode);
            },
        };
        let height = match read_u64_slot(&h_slot) {
            Some(u) => u,
            None => {
                return Err(Error::HttpDecode);
            },
        };
        let target_deadline = match read_u64_slot(&td_slot) {
            Some(u) => u,
            None => {
                return Err(Error::HttpDecode);
            },
        };
        Ok(
            MiningInfo {
                generation_signature,
                base_target,
                request_processing_time,
                height,
                target_deadline,
            },
        )
    }
}

} // verus!
