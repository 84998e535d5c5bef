use vstd::prelude::*;

verus! {

/// Body of an observed request: carried verbatim, or elided upstream.
#[derive(Debug, Clone, PartialEq, Eq)]
pub enum Body {
    Original(String),
    Skipped,
}

impl Body {
    /// The text the body contributes to pattern matching: an elided
    /// body counts as empty.
    pub open spec fn text_view(&self) -> Seq<char> {
        match self {
            Body::Original(s) => s@,
            Body::Skipped => Seq::empty(),
        }
    }

    pub fn text(&self) -> (r: &str)
        ensures
            r@ == self.text_view(),
    {
        match self {
            Body::Original(s) => s.as_str(),
            Body::Skipped => {
                let r = "";
                proof {
                    reveal_strlit("");
                    assert(r@ =~= Seq::<char>::empty());
                }
                r
            },
        }
    }
}

/// One observed HTTP request, as decoded from the bus. The timestamp
/// string is the only clock detectors may consult.
#[derive(Debug, Clone, PartialEq, Eq)]
pub struct Request {
    pub timestamp: String,
    pub remote_ip: String,
    pub host: String,
    pub method: String,
    pub path: String,
    pub headers: Vec<(String, String)>,
    pub body: Body,
}

/// Whom a ban applies to: an address, a user agent, or both.
#[derive(Debug, Clone, PartialEq, Eq)]
pub struct BanTarget {
    pub ip: Option<String>,
    pub user_agent: Option<String>,
}

/// A ban directive as handed to the executor.
#[derive(Debug, Clone, PartialEq, Eq)]
pub struct BanRequest {
    pub target: BanTarget,
    pub reason: String,
    pub ttl: u32,
}

/// Pipeline envelope around a ban: which validator produced it.
#[derive(Debug, Clone, PartialEq, Eq)]
pub struct ValidatorBanRequest {
    pub ban_request: BanRequest,
    pub validator_name: String,
}

/// Mathematical image of a ban, over views.
pub ghost struct BanModel {
    pub ip: Option<Seq<char>>,
    pub user_agent: Option<Seq<char>>,
    pub reason: Seq<char>,
    pub ttl: int,
}

pub open spec fn ban_model(br: BanRequest) -> BanModel {
    BanModel {
        ip: match br.target.ip {
            Some(s) => Some(s@),
            None => None,
        },
        user_agent: match br.target.user_agent {
            Some(s) => Some(s@),
            None => None,
        },
        reason: br.reason@,
        ttl: br.ttl as int,
    }
}

/// The ban a detector keyed by address emits.
pub open spec fn ip_ban_model(ip: Seq<char>, reason: Seq<char>, ttl: int) -> BanModel {
    BanModel { ip: Some(ip), user_agent: None, reason, ttl }
}

/// The ban a detector keyed by user agent emits.
pub open spec fn ua_ban_model(ua: Seq<char>, reason: Seq<char>, ttl: int) -> BanModel {
    BanModel { ip: None, user_agent: Some(ua), reason, ttl }
}

/// ASCII-lowercased code point, for case-insensitive header names.
pub open spec fn lower_code(c: char) -> int {
    if 65 <= c as int <= 90 {
        c as int + 32
    } else {
        c as int
    }
}

/// Two characters equal up to ASCII case.
pub open spec fn ieq_char(a: char, b: char) -> bool {
    lower_code(a) == lower_code(b)
}

/// Two strings equal up to ASCII case, character by character.
pub open spec fn ieq_str(a: Seq<char>, b: Seq<char>) -> bool {
    a.len() == b.len() && forall|i: int| 0 <= i < a.len() ==> ieq_char(#[trigger] a[i], b[i])
}

fn char_ieq(a: char, b: char) -> (r: bool)
    ensures
        r == ieq_char(a, b),
{
    let au = a as u32;
    let bu = b as u32;
    let al = if au >= 65 && au <= 90 {
        au + 32
    } else {
        au
    };
    let bl = if bu >= 65 && bu <= 90 {
        bu + 32
    } else {
        bu
    };
    al == bl
}

/// Case-insensitive string comparison, ASCII case only.
pub fn str_ieq(a: &str, b: &str) -> (r: bool)
    ensures
        r == ieq_str(a@, b@),
{
    let an = a.unicode_len();
    let bn = b.unicode_len();
    if an != bn {
        return false;
    }
    let mut i: usize = 0;
    while i < an
        invariant
            an == a@.len(),
            bn == b@.len(),
            an == bn,
            i <= an,
            forall|j: int| 0 <= j < i ==> ieq_char(#[trigger] a@[j], b@[j]),
        decreases an - i,
    {
        if !char_ieq(a.get_char(i), b.get_char(i)) {
            return false;
        }
        i = i + 1;
    }
    true
}

/// The value of the first header whose name matches `name` up to ASCII
/// case, in declaration order.
pub open spec fn find_header(headers: Seq<(String, String)>, name: Seq<char>) -> Option<Seq<char>>
    decreases headers.len(),
{
    if headers.len() == 0 {
        None
    } else if ieq_str(headers[0].0@, name) {
        Some(headers[0].1@)
    } else {
        find_header(headers.drop_first(), name)
    }
}

impl Request {
    /// An exact copy, field by field (the derived clone carries no
    /// contract).
    pub fn duplicate(&self) -> (r: Request)
        ensures
            r.timestamp == self.timestamp,
            r.remote_ip == self.remote_ip,
            r.host == self.host,
            r.method == self.method,
            r.path == self.path,
            r.headers@ == self.headers@,
            r.body == self.body,
    {
        let mut headers: Vec<(String, String)> = Vec::new();
        let mut i: usize = 0;
        while i < self.headers.len()
            invariant
                i <= self.headers@.len(),
                headers@.len() == i,
                forall|j: int| 0 <= j < i ==> #[trigger] headers@[j] == self.headers@[j],
            decreases self.headers@.len() - i,
        {
            headers.push((self.headers[i].0.clone(), self.headers[i].1.clone()));
            i = i + 1;
        }
        proof {
            assert(headers@ =~= self.headers@);
        }
        let body = match &self.body {
            Body::Original(s) => Body::Original(s.clone()),
            Body::Skipped => Body::Skipped,
        };
        Request {
            timestamp: self.timestamp.clone(),
            remote_ip: self.remote_ip.clone(),
            host: self.host.clone(),
            method: self.method.clone(),
            path: self.path.clone(),
            headers,
            body,
        }
    }

    /// Look a header up by name, case-insensitively, first match wins.
    pub fn header(&self, name: &str) -> (r: Option<&String>)
        ensures
            match r {
                Some(v) => find_header(self.headers@, name@) == Some(v@),
                None => find_header(self.headers@, name@) is None,
            },
    {
        let n = self.headers.len();
        let mut i: usize = 0;
        proof {
            assert(self.headers@.skip(0) =~= self.headers@);
        }
        while i < n
            invariant
                n == self.headers@.len(),
                i <= n,
                find_header(self.headers@.skip(i as int), name@) == find_header(
                    self.headers@,
                    name@,
                ),
            decreases n - i,
        {
            proof {
                let rest = self.headers@.skip(i as int);
                assert(rest[0] == self.headers@[i as int]);
                assert(rest.drop_first() =~= self.headers@.skip(i as int + 1));
            }
            if str_ieq(self.headers[i].0.as_str(), name) {
                return Some(&self.headers[i].1);
            }
            i = i + 1;
        }
        proof {
            assert(self.headers@.skip(n as int) =~= Seq::<(String, String)>::empty());
        }
        None
    }
}

} // verus!
