use vstd::prelude::*;
use vstd::string::*;

verus! {

/// Mathematical image of the persisted preferences document: the channel
/// table (if present), the installation's client identifier, and the
/// metrics-consent flag. The schema version is not part of the value; a
/// parsed document always carries the supported version.
pub struct UserMetaView {
    pub channels: Option<Seq<(Seq<char>, Seq<char>)>>,
    pub client_uuid: Seq<char>,
    pub metrics_consent: u8,
}

/// A string that can be embedded in a JSON string literal by escaping only
/// quotes and backslashes: it holds no control characters.
pub open spec fn json_safe(s: Seq<char>) -> bool {
    forall|k: int| 0 <= k < s.len() ==> (#[trigger] s[k]) as u32 >= 32
}

pub open spec fn is_hex_char(c: char) -> bool {
    ('0' <= c && c <= '9') || ('a' <= c && c <= 'f') || ('A' <= c && c <= 'F')
}

/// The hyphenated textual form of a universally-unique identifier:
/// 36 characters, hyphens at positions 8, 13, 18 and 23, hex digits elsewhere.
pub open spec fn uuid_format(s: Seq<char>) -> bool {
    &&& s.len() == 36
    &&& forall|k: int| 0 <= k < 36 ==> (if k == 8 || k == 13 || k == 18 || k == 23 {
        (#[trigger] s[k]) == '-'
    } else {
        is_hex_char(s[k])
    })
}

/// No two channel entries share a name.
pub open spec fn distinct_channel_names(cs: Seq<(Seq<char>, Seq<char>)>) -> bool {
    forall|a: int, b: int|
        0 <= a < b < cs.len() ==> (#[trigger] cs[a]).0 != (#[trigger] cs[b]).0
}

pub open spec fn channels_json_safe(cs: Seq<(Seq<char>, Seq<char>)>) -> bool {
    forall|k: int|
        0 <= k < cs.len() ==> json_safe((#[trigger] cs[k]).0) && json_safe(cs[k].1)
}

impl UserMetaView {
    pub open spec fn well_formed(self) -> bool {
        &&& uuid_format(self.client_uuid)
        &&& match self.channels {
            None => true,
            Some(cs) => distinct_channel_names(cs) && channels_json_safe(cs),
        }
    }
}

/// The typed in-memory document. Values of this type are always well formed:
/// the constructor validates, and the parser only builds validated values.
pub struct UserMeta {
    channels: Option<Vec<(String, String)>>,
    client_uuid: String,
    metrics_consent: u8,
}

pub open spec fn channels_view(cs: Seq<(String, String)>) -> Seq<(Seq<char>, Seq<char>)> {
    cs.map_values(|p: (String, String)| (p.0@, p.1@))
}

impl View for UserMeta {
    type V = UserMetaView;

    closed spec fn view(&self) -> UserMetaView {
        UserMetaView {
            channels: match self.channels {
                None => None,
                Some(cs) => Some(channels_view(cs@)),
            },
            client_uuid: self.client_uuid@,
            metrics_consent: self.metrics_consent,
        }
    }
}

impl UserMeta {
    #[verifier::type_invariant]
    pub open spec fn wf(self) -> bool {
        self@.well_formed()
    }

    /// Builds a document from plain values, validating the identifier format,
    /// channel-name uniqueness and the absence of control characters.
    pub fn new(channels: Option<Vec<(String, String)>>, client_uuid: String, metrics_consent: u8) -> (r: Option<
        UserMeta,
    >)
        ensures
            ({
                let v = UserMetaView {
                    channels: match channels {
                        None => None,
                        Some(cs) => Some(channels_view(cs@)),
                    },
                    client_uuid: client_uuid@,
                    metrics_consent,
                };
                &&& r matches Some(m) ==> m@ == v
                &&& (r is Some <==> v.well_formed())
            }),
    {
        if !is_uuid_str(client_uuid.as_str()) {
            return None;
        }
        match channels {
            None => Some(UserMeta { channels: None, client_uuid, metrics_consent }),
            Some(cs) => {
                if channels_ok(&cs) {
                    Some(UserMeta { channels: Some(cs), client_uuid, metrics_consent })
                } else {
                    None
                }
            },
        }
    }

    pub fn channels(&self) -> (r: &Option<Vec<(String, String)>>)
        ensures
            self@.channels == match r {
                None => None::<Seq<(Seq<char>, Seq<char>)>>,
                Some(cs) => Some(channels_view(cs@)),
            },
    {
        &self.channels
    }

    pub fn client_uuid(&self) -> (r: &String)
        ensures
            r@ == self@.client_uuid,
    {
        &self.client_uuid
    }

    pub fn metrics_consent(&self) -> (r: u8)
        ensures
            r == self@.metrics_consent,
    {
        self.metrics_consent
    }

    /// Internal constructor for the parser, which has already validated.
    pub(crate) fn from_parts(channels: Option<Vec<(String, String)>>, client_uuid: String, metrics_consent: u8) -> (r:
        UserMeta)
        requires
            ({
                let v = UserMetaView {
                    channels: match channels {
                        None => None,
                        Some(cs) => Some(channels_view(cs@)),
                    },
                    client_uuid: client_uuid@,
                    metrics_consent,
                };
                v.well_formed()
            }),
        ensures
            r@ == (UserMetaView {
                channels: match channels {
                    None => None,
                    Some(cs) => Some(channels_view(cs@)),
                },
                client_uuid: client_uuid@,
                metrics_consent,
            }),
    {
        UserMeta { channels, client_uuid, metrics_consent }
    }
}

impl PartialEq for UserMeta {
    /// Two documents are equal exactly when their channel tables, client
    /// identifiers and consent flags agree.
    fn eq(&self, other: &UserMeta) -> (r: bool) {
        if self.metrics_consent != other.metrics_consent {
            return false;
        }
        if !str_eq(self.client_uuid.as_str(), other.client_uuid.as_str()) {
            return false;
        }
        match &self.channels {
            None => match &other.channels {
                None => true,
                Some(_) => false,
            },
            Some(a) => match &other.channels {
                None => {
                    false
                },
                Some(b) => {
                let n = a.len();
                if n != b.len() {
                    proof {
                        assert(channels_view(a@).len() != channels_view(b@).len());
                    }
                    return false;
                }
                let mut k: usize = 0;
                while k < n
                    invariant
                        0 <= k <= n,
                        n == a@.len(),
                        n == b@.len(),
                        self@.channels == Some(channels_view(a@)),
                        other@.channels == Some(channels_view(b@)),
                        forall|j: int|
                            0 <= j < k ==> #[trigger] channels_view(a@)[j] == channels_view(b@)[j],
                    decreases n - k,
                {
                    proof {
                        assert(channels_view(a@)[k as int] == (a@[k as int].0@, a@[k as int].1@));
                        assert(channels_view(b@)[k as int] == (b@[k as int].0@, b@[k as int].1@));
                    }
                    if !str_eq(a[k].0.as_str(), b[k].0.as_str()) || !str_eq(
                        a[k].1.as_str(),
                        b[k].1.as_str(),
                    ) {
                        proof {
                            assert(self@.channels == Some(channels_view(a@)));
                            assert(other@.channels == Some(channels_view(b@)));
                            if self@ == other@ {
                                assert(channels_view(a@) == channels_view(b@));
                                assert(channels_view(a@)[k as int] == channels_view(b@)[k as int]);
                            }
                        }
                        return false;
                    }
                    k += 1;
                }
                    proof {
                        assert(channels_view(a@) =~= channels_view(b@));
                    }
                    true
                },
            },
        }
    }
}

impl vstd::std_specs::cmp::PartialEqSpecImpl for UserMeta {
    open spec fn obeys_eq_spec() -> bool {
        true
    }

    open spec fn eq_spec(&self, other: &UserMeta) -> bool {
        self@ == other@
    }
}

/// Checks the hyphenated identifier format character by character.
pub fn is_uuid_str(s: &str) -> (r: bool)
    ensures
        r == uuid_format(s@),
{
    let n = s.unicode_len();
    if n != 36 {
        return false;
    }
    let mut k: usize = 0;
    while k < 36
        invariant
            0 <= k <= 36,
            s@.len() == 36,
            forall|j: int| 0 <= j < k ==> (if j == 8 || j == 13 || j == 18 || j == 23 {
                (#[trigger] s@[j]) == '-'
            } else {
                is_hex_char(s@[j])
            }),
        decreases 36 - k,
    {
        let c = s.get_char(k);
        if k == 8 || k == 13 || k == 18 || k == 23 {
            if c != '-' {
                return false;
            }
        } else {
            if !is_hex_char_exec(c) {
                return false;
            }
        }
        k += 1;
    }
    true
}

pub fn is_hex_char_exec(c: char) -> (r: bool)
    ensures
        r == is_hex_char(c),
{
    ('0' <= c && c <= '9') || ('a' <= c && c <= 'f') || ('A' <= c && c <= 'F')
}

/// True when the string holds no control characters.
pub fn is_json_safe_str(s: &str) -> (r: bool)
    ensures
        r == json_safe(s@),
{
    let n = s.unicode_len();
    let mut k: usize = 0;
    while k < n
        invariant
            0 <= k <= n,
            n == s@.len(),
            forall|j: int| 0 <= j < k ==> (#[trigger] s@[j]) as u32 >= 32,
        decreases n - k,
    {
        let c = s.get_char(k);
        if (c as u32) < 32 {
            return false;
        }
        k += 1;
    }
    true
}

/// Validates a channel table: every name and locator free of control
/// characters, and no name repeated.
pub fn channels_ok(cs: &Vec<(String, String)>) -> (r: bool)
    ensures
        r == (distinct_channel_names(channels_view(cs@)) && channels_json_safe(channels_view(cs@))),
{
    let n = cs.len();
    let mut k: usize = 0;
    while k < n
        invariant
            0 <= k <= n,
            n == cs@.len(),
            forall|j: int| 0 <= j < k ==> json_safe(#[trigger] channels_view(cs@)[j].0) && json_safe(
                channels_view(cs@)[j].1,
            ),
            forall|a: int, b: int|
                0 <= a < b < k ==> (#[trigger] channels_view(cs@)[a]).0 != (
                #[trigger] channels_view(cs@)[b]).0,
        decreases n - k,
    {
        proof {
            assert(channels_view(cs@)[k as int] == (cs@[k as int].0@, cs@[k as int].1@));
        }
        if !is_json_safe_str(cs[k].0.as_str()) || !is_json_safe_str(cs[k].1.as_str()) {
            return false;
        }
        let mut a: usize = 0;
        while a < k
            invariant
                0 <= a <= k < n,
                n == cs@.len(),
                forall|j: int| 0 <= j < a ==> (#[trigger] channels_view(cs@)[j]).0 != channels_view(
                    cs@,
                )[k as int].0,
            decreases k - a,
        {
            if str_eq(cs[a].0.as_str(), cs[k].0.as_str()) {
                proof {
                    assert(channels_view(cs@)[a as int] == (cs@[a as int].0@, cs@[a as int].1@));
                    assert((channels_view(cs@)[a as int]).0 == (channels_view(cs@)[k as int]).0);
                    assert(!distinct_channel_names(channels_view(cs@))) by {
                        if distinct_channel_names(channels_view(cs@)) {
                            assert((channels_view(cs@)[a as int]).0 != (channels_view(
                                cs@,
                            )[k as int]).0);
                        }
                    }
                }
                return false;
            }
            a += 1;
        }
        k += 1;
    }
    true
}

/// Character-wise string comparison with an exact meaning at the view level.
pub fn str_eq(a: &str, b: &str) -> (r: bool)
    ensures
        r == (a@ == b@),
{
    let na = a.unicode_len();
    let nb = b.unicode_len();
    if na != nb {
        proof {
            assert(a@ != b@) by {
                if a@ == b@ {
                    assert(a@.len() == b@.len());
                }
            }
        }
        return false;
    }
    let mut k: usize = 0;
    while k < na
        invariant
            0 <= k <= na,
            na == a@.len(),
            na == b@.len(),
            forall|j: int| 0 <= j < k ==> a@[j] == b@[j],
        decreases na - k,
    {
        if a.get_char(k) != b.get_char(k) {
            return false;
        }
        k += 1;
    }
    proof {
        assert(a@ =~= b@);
    }
    true
}

} // verus!
