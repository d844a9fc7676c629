//! Parsing of incoming MQTT topics: `<realm>/<device_id>/<interface><path>`.
use vstd::prelude::*;
use crate::text::{chars_of, str_eq};

verus! {

/// The topic suffix of the purge-properties directive.
pub const PURGE_PROPERTIES_TOPIC: &'static str = "control/consumer/properties";

/// The realm and device id that prefix every device topic.
#[derive(Debug)]
pub struct ClientId {
    pub realm: String,
    pub device_id: String,
}

/// `realm/device_id`.
pub open spec fn client_id_of(realm: Seq<char>, device_id: Seq<char>) -> Seq<char> {
    realm + seq!['/'] + device_id
}

impl ClientId {
    pub fn new(realm: &str, device_id: &str) -> (r: ClientId)
        ensures
            r.realm@ == realm@,
            r.device_id@ == device_id@,
    {
        ClientId { realm: String::from_str(realm), device_id: String::from_str(device_id) }
    }

    pub open spec fn spec_text(&self) -> Seq<char> {
        client_id_of(self.realm@, self.device_id@)
    }

    /// The client id as text, `realm/device_id`.
    pub fn as_text(&self) -> (r: String)
        ensures
            r@ == self.spec_text(),
    {
        let mut s = self.realm.clone();
        proof { reveal_strlit("/"); }
        s.append("/");
        s.append(self.device_id.as_str());
        s
    }
}

/// Error returned when parsing a topic.
#[derive(Debug, Clone, PartialEq, Eq)]
pub enum TopicError {
    /// Empty topic.
    Empty,
    /// The topic does not start with `<realm>/<device_id>`.
    UnknownClientId { client_id: String, topic: String },
    /// The topic is not of the form `<realm>/<device_id>/<interface>/<path>`.
    Malformed(String),
}

impl TopicError {
    /// The topic that could not be parsed.
    pub fn topic(&self) -> (r: &str)
        ensures
            match self {
                TopicError::Empty => r@ == Seq::<char>::empty(),
                TopicError::UnknownClientId { topic, .. } => r@ == topic@,
                TopicError::Malformed(topic) => r@ == topic@,
            },
    {
        match self {
            TopicError::Empty => {
                proof { reveal_strlit(""); }
                ""
            },
            TopicError::UnknownClientId { topic, .. } => topic.as_str(),
            TopicError::Malformed(topic) => topic.as_str(),
        }
    }
}

/// A parsed topic.
#[derive(Debug)]
pub enum ParsedTopic {
    PurgeProperties,
    InterfacePath { interface: String, path: String },
}

/// The outcome of parsing a topic, as plain values.
pub enum TopicOutcome {
    Empty,
    UnknownClientId,
    Malformed,
    PurgeProperties,
    InterfacePath(Seq<char>, Seq<char>),
}

/// Index of the first `c` in `s`, or the length of `s` when there is none.
pub open spec fn first_index_of(s: Seq<char>, c: char) -> int
    decreases s.len(),
{
    if s.len() == 0 {
        0
    } else if s[0] == c {
        0
    } else {
        1 + first_index_of(s.drop_first(), c)
    }
}

/// How a topic parses for the client id `cid`.
pub open spec fn parse_topic(cid: Seq<char>, topic: Seq<char>) -> TopicOutcome {
    if topic.len() == 0 {
        TopicOutcome::Empty
    } else if !(cid.len() <= topic.len() && topic.subrange(0, cid.len() as int) == cid) {
        TopicOutcome::UnknownClientId
    } else {
        let rest0 = topic.skip(cid.len() as int);
        if rest0.len() == 0 || rest0[0] != '/' {
            TopicOutcome::Malformed
        } else {
            let rest = rest0.drop_first();
            if rest == PURGE_PROPERTIES_TOPIC@ {
                TopicOutcome::PurgeProperties
            } else {
                let idx = first_index_of(rest, '/');
                if idx == 0 || idx >= rest.len() {
                    TopicOutcome::Malformed
                } else {
                    TopicOutcome::InterfacePath(rest.subrange(0, idx), rest.skip(idx))
                }
            }
        }
    }
}

pub open spec fn outcome_of(r: Result<ParsedTopic, TopicError>) -> TopicOutcome {
    match r {
        Ok(ParsedTopic::PurgeProperties) => TopicOutcome::PurgeProperties,
        Ok(ParsedTopic::InterfacePath { interface, path }) => TopicOutcome::InterfacePath(interface@, path@),
        Err(TopicError::Empty) => TopicOutcome::Empty,
        Err(TopicError::UnknownClientId { .. }) => TopicOutcome::UnknownClientId,
        Err(TopicError::Malformed(_)) => TopicOutcome::Malformed,
    }
}

proof fn lemma_first_index_of(s: Seq<char>, c: char, i: int)
    requires
        0 <= i <= s.len(),
        forall|j: int| 0 <= j < i ==> s[j] != c,
        i == s.len() || s[i] == c,
    ensures
        first_index_of(s, c) == i,
    decreases s.len(),
{
    if s.len() > 0 && s[0] != c {
        lemma_first_index_of(s.drop_first(), c, i - 1);
    }
}

impl ParsedTopic {
    /// Parses a topic received by the client `client_id`.
    pub fn try_parse(client_id: &ClientId, topic: &str) -> (r: Result<ParsedTopic, TopicError>)
        ensures
            outcome_of(r) == parse_topic(client_id.spec_text(), topic@),
            r matches Err(TopicError::UnknownClientId { client_id: c, topic: t }) ==> c@ == client_id.spec_text() && t@ == topic@,
            r matches Err(TopicError::Malformed(t)) ==> t@ == topic@,
    {
        let t = chars_of(topic);
        if t.len() == 0 {
            return Err(TopicError::Empty);
        }
        let cid_text = client_id.as_text();
        let cid = chars_of(cid_text.as_str());
        let mut i: usize = 0;
        let mut prefix = cid.len() <= t.len();
        while prefix && i < cid.len()
            invariant
                prefix ==> cid@.len() <= t@.len(),
                i <= cid@.len(),
                prefix ==> t@.subrange(0, i as int) == cid@.subrange(0, i as int),
                !prefix ==> !(cid@.len() <= t@.len() && t@.subrange(0, cid@.len() as int) == cid@),
            decreases cid@.len() - i + (if prefix { 1int } else { 0int }),
        {
            if t[i] != cid[i] {
                proof {
                    if cid@.len() <= t@.len() && t@.subrange(0, cid@.len() as int) == cid@ {
                        assert(t@.subrange(0, cid@.len() as int)[i as int] == t@[i as int]);
                    }
                }
                prefix = false;
            } else {
                assert(t@.subrange(0, i as int + 1) =~= t@.subrange(0, i as int).push(t@[i as int]));
                assert(cid@.subrange(0, i as int + 1) =~= cid@.subrange(0, i as int).push(cid@[i as int]));
                i = i + 1;
            }
        }
        if !prefix {
            return Err(TopicError::UnknownClientId { client_id: cid_text, topic: String::from_str(topic) });
        }
        assert(cid@.subrange(0, cid@.len() as int) =~= cid@);
        let n = t.len();
        let c = cid.len();
        let ghost rest0 = topic@.skip(c as int);
        if c >= n || t[c] != '/' {
            return Err(TopicError::Malformed(String::from_str(topic)));
        }
        let ghost rest = rest0.drop_first();
        let rest_str = topic.substring_char(c + 1, n);
        assert(rest_str@ =~= rest);
        proof { reveal_strlit("control/consumer/properties"); }
        if str_eq(rest_str, PURGE_PROPERTIES_TOPIC) {
            return Ok(ParsedTopic::PurgeProperties);
        }
        let mut k: usize = c + 1;
        while k < n && t[k] != '/'
            invariant
                c + 1 <= k <= n,
                n == t@.len(),
                t@ == topic@,
                rest == topic@.skip(c as int + 1),
                forall|j: int| c + 1 <= j < k ==> t@[j] != '/',
            decreases n - k,
        {
            k = k + 1;
        }
        proof {
            lemma_first_index_of(rest, '/', k - c - 1);
        }
        if k == c + 1 || k >= n {
            return Err(TopicError::Malformed(String::from_str(topic)));
        }
        let interface = topic.substring_char(c + 1, k);
        let path = topic.substring_char(k, n);
        assert(interface@ =~= rest.subrange(0, k - c - 1));
        assert(path@ =~= rest.skip(k - c - 1));
        Ok(ParsedTopic::InterfacePath { interface: String::from_str(interface), path: String::from_str(path) })
    }
}

} // verus!
