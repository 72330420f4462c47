//! HTTP/1.0 request heads: the request line and the header map.
use vstd::prelude::*;

use crate::err::{Error, Result};
use crate::text::{
    chars_of, lemma_split_concat, lemma_split_nonempty, lemma_split_single,
    lemma_trim_unpadded, split_on, split_str, trim, trim_start, trim_ws, unpadded, views,
};

verus! {

/// The closed set of accepted request methods.
#[derive(Clone, Copy, Debug, PartialEq, Eq, Structural)]
pub enum Verb {
    Get,
}

impl Verb {
    pub open spec fn spec_name(self) -> Seq<char> {
        match self {
            Verb::Get => "GET"@,
        }
    }

    /// The verb spelled by `s`, if it is one.
    pub fn parse(s: &str) -> (r: Option<Verb>)
        ensures
            r == (if s@ == "GET"@ {
                Some(Verb::Get)
            } else {
                None::<Verb>
            }),
    {
        let a = String::from_str(s);
        let get = String::from_str("GET");
        if a == get {
            Some(Verb::Get)
        } else {
            None
        }
    }

    pub fn to_string(&self) -> (r: &'static str)
        ensures
            r@ == self.spec_name(),
    {
        match self {
            Verb::Get => "GET",
        }
    }
}

/// Status lines of the responses this server sends.
#[derive(Clone, Copy, Debug, PartialEq, Eq, Structural)]
pub enum Status {
    SwitchingProtocols,
    OK,
    BadRequest,
    NotFound,
    MethodNotAllowed,
}

impl Status {
    pub open spec fn spec_line(self) -> Seq<char> {
        match self {
            Status::SwitchingProtocols => "101 Switching Protocols"@,
            Status::OK => "200 OK"@,
            Status::BadRequest => "400 Bad Request"@,
            Status::NotFound => "404 Not Found"@,
            Status::MethodNotAllowed => "405 Method Not Allowed"@,
        }
    }

    pub fn to_string(&self) -> (r: &'static str)
        ensures
            r@ == self.spec_line(),
    {
        match self {
            Status::SwitchingProtocols => "101 Switching Protocols",
            Status::OK => "200 OK",
            Status::BadRequest => "400 Bad Request",
            Status::NotFound => "404 Not Found",
            Status::MethodNotAllowed => "405 Method Not Allowed",
        }
    }
}

/// The map that a list of (name, value) pairs gives when later pairs
/// overwrite earlier ones.
pub open spec fn header_map(e: Seq<(Seq<char>, Seq<char>)>) -> Map<Seq<char>, Seq<char>>
    decreases e.len(),
{
    if e.len() == 0 {
        Map::empty()
    } else {
        header_map(e.drop_last()).insert(e.last().0, e.last().1)
    }
}

pub open spec fn entry_views(e: Seq<(String, String)>) -> Seq<(Seq<char>, Seq<char>)> {
    e.map_values(|p: (String, String)| (p.0@, p.1@))
}

/// Header names (case-sensitive) mapped to values.
#[derive(Debug)]
pub struct Headers {
    entries: Vec<(String, String)>,
}

impl View for Headers {
    type V = Map<Seq<char>, Seq<char>>;

    closed spec fn view(&self) -> Map<Seq<char>, Seq<char>> {
        header_map(entry_views(self.entries@))
    }
}

impl Headers {
    pub fn new() -> (r: Headers)
        ensures
            r@ == Map::<Seq<char>, Seq<char>>::empty(),
    {
        Headers { entries: Vec::new() }
    }

    /// Sets `name` to `value`, replacing an earlier value.
    pub fn insert(&mut self, name: String, value: String)
        ensures
            final(self)@ == old(self)@.insert(name@, value@),
    {
        let ghost e = entry_views(self.entries@);
        self.entries.push((name, value));
        assert(entry_views(self.entries@).drop_last() =~= e);
    }

    /// The value of header `name`, if present.
    pub fn get(&self, name: &str) -> (r: Option<&String>)
        ensures
            match r {
                Some(v) => self@.contains_key(name@) && v@ == self@[name@],
                None => !self@.contains_key(name@),
            },
    {
        let key = String::from_str(name);
        let ghost ev = entry_views(self.entries@);
        let ghost k = name@;
        let mut j = self.entries.len();
        assert(ev.take(j as int) =~= ev);
        while j > 0
            invariant
                j <= self.entries.len(),
                ev == entry_views(self.entries@),
                k == key@,
                k == name@,
                header_map(ev).contains_key(k) == header_map(ev.take(j as int)).contains_key(k),
                header_map(ev).contains_key(k) ==> header_map(ev)[k] == header_map(
                    ev.take(j as int),
                )[k],
            decreases j,
        {
            assert(ev.take(j as int).drop_last() =~= ev.take(j as int - 1));
            assert(ev.take(j as int).last() == ev[j - 1]);
            assert(ev[j - 1] == (self.entries@[j - 1].0@, self.entries@[j - 1].1@));
            assert(header_map(ev.take(j as int)) == header_map(ev.take(j as int - 1)).insert(
                ev[j - 1].0,
                ev[j - 1].1,
            ));
            if self.entries[j - 1].0 == key {
                assert(self@ == header_map(ev));
                return Some(&self.entries[j - 1].1);
            }
            j = j - 1;
        }
        None
    }
}

/// A parsed request head.
#[derive(Debug)]
pub struct Req {
    pub version: String,
    pub verb: Verb,
    pub path: String,
    pub headers: Headers,
}

/// The lines of a request head.
pub open spec fn head_lines(text: Seq<char>) -> Seq<Seq<char>> {
    split_on(text, '\n')
}

/// The space-separated tokens of the (trimmed) request line.
pub open spec fn request_tokens(text: Seq<char>) -> Seq<Seq<char>> {
    split_on(trim(head_lines(text)[0]), ' ')
}

/// `k` is the first position of `c` in `s`.
pub open spec fn first_at(s: Seq<char>, c: char, k: int) -> bool {
    0 <= k < s.len() && s[k] == c && forall|j: int| 0 <= j < k ==> s[j] != c
}

/// The (name, value) pair of a header line: split at the first colon,
/// both sides trimmed; `None` for a line without a colon.
pub open spec fn header_of(line: Seq<char>) -> Option<(Seq<char>, Seq<char>)> {
    let t = trim(line);
    if exists|k: int| first_at(t, ':', k) {
        let k = choose|k: int| first_at(t, ':', k);
        Some((trim(t.take(k)), trim(t.skip(k + 1))))
    } else {
        None
    }
}

/// The header map after the header lines `lines`, which end at the first
/// blank line, are added to `m`.
pub open spec fn headers_from(lines: Seq<Seq<char>>, m: Map<Seq<char>, Seq<char>>) -> Map<
    Seq<char>,
    Seq<char>,
>
    decreases lines.len(),
{
    if lines.len() == 0 || trim(lines[0]).len() == 0 {
        m
    } else {
        let m2 = match header_of(lines[0]) {
            Some(p) => m.insert(p.0, p.1),
            None => m,
        };
        headers_from(lines.drop_first(), m2)
    }
}

/// The header map of a request head.
pub open spec fn head_headers(text: Seq<char>) -> Map<Seq<char>, Seq<char>> {
    headers_from(head_lines(text).skip(1), Map::empty())
}

/// The first position of `c` in `cs`, if any.
fn find_char(cs: &Vec<char>, c: char) -> (r: Option<usize>)
    ensures
        match r {
            Some(k) => first_at(cs@, c, k as int),
            None => forall|j: int| 0 <= j < cs@.len() ==> cs@[j] != c,
        },
{
    let mut i: usize = 0;
    while i < cs.len()
        invariant
            i <= cs.len(),
            forall|j: int| 0 <= j < i ==> cs@[j] != c,
        decreases cs.len() - i,
    {
        if cs[i] == c {
            return Some(i);
        }
        i = i + 1;
    }
    None
}

/// Splits a header line at its first colon into a trimmed name and value;
/// `None` when the line holds no colon.
pub fn parse_header_line(line: &str) -> (r: Option<(String, String)>)
    ensures
        match r {
            Some(p) => header_of(line@) == Some((p.0@, p.1@)),
            None => header_of(line@) is None,
        },
{
    let t = trim_ws(line);
    let cs = chars_of(t);
    match find_char(&cs, ':') {
        Some(k) => {
            let n = cs.len();
            let name = trim_ws(t.substring_char(0, k));
            let value = trim_ws(t.substring_char(k + 1, n));
            assert(t@.take(k as int) =~= t@.subrange(0, k as int));
            assert(t@.skip(k + 1) =~= t@.subrange(k + 1, n as int));
            let ghost c = choose|c: int| first_at(t@, ':', c);
            assert(first_at(t@, ':', c));
            assert(c == k) by {
                if c < k {
                    assert(t@[c] != ':');
                } else if c > k {
                    assert(t@[k as int] != ':');
                }
            }
            Some((String::from_str(name), String::from_str(value)))
        },
        None => {
            assert(!exists|c: int| first_at(t@, ':', c)) by {
                if exists|c: int| first_at(t@, ':', c) {
                    let c = choose|c: int| first_at(t@, ':', c);
                    assert(cs@[c] != ':');
                }
            }
            None
        },
    }
}

impl Req {
    /// Parses a request head: the request line `<VERB> <PATH> <VERSION>`
    /// (extra tokens are ignored), then header lines up to the first blank
    /// line or the end of the text.
    pub fn parse(head: &str) -> (r: Result<Req>)
        ensures
            ({
                let tok = request_tokens(head@);
                &&& (r is Ok <==> tok[0] == "GET"@ && tok.len() >= 3)
                &&& trim(head_lines(head@)[0]).len() == 0 ==> (r matches Err(Error::Input(m))
                    && m@ == "no verb"@)
                &&& trim(head_lines(head@)[0]).len() > 0 && tok[0] != "GET"@ ==> (r matches Err(
                    Error::Input(m),
                ) && m@ == "unknown verb: "@ + tok[0])
                &&& tok[0] == "GET"@ && tok.len() == 1 ==> (r matches Err(Error::Input(m)) && m@
                    == "no path"@)
                &&& tok[0] == "GET"@ && tok.len() == 2 ==> (r matches Err(Error::Input(m)) && m@
                    == "no version"@)
                &&& r matches Ok(req) ==> {
                    &&& req.verb == Verb::Get
                    &&& req.path@ == tok[1]
                    &&& req.version@ == tok[2]
                    &&& req.headers@ == head_headers(head@)
                }
            }),
    {
        let lines = split_str(head, '\n');
        proof {
            lemma_split_nonempty(head@, '\n');
        }
        let first = trim_ws(lines[0].as_str());
        if first.is_empty() {
            proof {
                reveal_strlit("GET");
                assert(first@ =~= Seq::<char>::empty());
                assert(split_on(first@, ' ')[0].len() == 0);
            }
            return Err(Error::Input(String::from_str("no verb")));
        }
        let toks = split_str(first, ' ');
        proof {
            lemma_split_nonempty(first@, ' ');
        }
        assert(views(toks@)[0] == toks@[0]@);
        let verb = match Verb::parse(toks[0].as_str()) {
            Some(v) => v,
            None => {
                let m = String::from_str("unknown verb: ").concat(toks[0].as_str());
                return Err(Error::Input(m));
            },
        };
        if toks.len() < 2 {
            return Err(Error::Input(String::from_str("no path")));
        }
        if toks.len() < 3 {
            return Err(Error::Input(String::from_str("no version")));
        }
        assert(views(toks@)[1] == toks@[1]@);
        assert(views(toks@)[2] == toks@[2]@);
        let path = toks[1].clone();
        let version = toks[2].clone();
        let ghost lv = views(lines@);
        let ghost target = headers_from(lv.skip(1), Map::empty());
        let mut headers = Headers::new();
        let mut i: usize = 1;
        let mut done = false;
        while !done && i < lines.len()
            invariant
                lv == views(lines@),
                lv == head_lines(head@),
                1 <= i <= lines.len(),
                done ==> headers@ == target,
                !done ==> headers_from(lv.skip(i as int), headers@) == target,
            decreases lines.len() - i + (if done {
                0int
            } else {
                1int
            }),
        {
            let ghost rest = lv.skip(i as int);
            assert(rest[0] == lines@[i as int]@);
            assert(rest.drop_first() =~= lv.skip(i + 1));
            let t = trim_ws(lines[i].as_str());
            if t.is_empty() {
                done = true;
            } else {
                match parse_header_line(lines[i].as_str()) {
                    Some(p) => {
                        headers.insert(p.0, p.1);
                    },
                    None => {},
                }
                i = i + 1;
            }
        }
        if !done {
            assert(lv.skip(i as int) =~= Seq::<Seq<char>>::empty());
        }
        Ok(Req { version, verb, path, headers })
    }
}

/// Whether `line` ends a request head: it is empty once trimmed.
pub fn ends_head(line: &str) -> (r: bool)
    ensures
        r == (trim(line@).len() == 0),
{
    trim_ws(line).is_empty()
}

/// A request-line token: non-empty, without spaces or line breaks.
pub open spec fn is_token(t: Seq<char>) -> bool {
    t.len() > 0 && forall|i: int| 0 <= i < t.len() ==> t[i] != ' ' && t[i] != '\n'
}

/// A head whose first line (without line breaks) trims to
/// `GET <path> <version>` has exactly those three request tokens, whatever
/// lines follow; `Req::parse` then returns them as its verb, path and
/// version.
pub proof fn lemma_request_line(
    line: Seq<char>,
    path: Seq<char>,
    version: Seq<char>,
    rest: Seq<char>,
)
    requires
        forall|i: int| 0 <= i < line.len() ==> line[i] != '\n',
        trim(line) == "GET "@ + path + " "@ + version,
        is_token(path),
        is_token(version),
    ensures
        request_tokens(line + "\n"@ + rest) == seq!["GET"@, path, version],
{
    reveal_strlit("GET ");
    reveal_strlit("GET");
    reveal_strlit(" ");
    reveal_strlit("\n");
    let get = "GET"@;
    let text = line + "\n"@ + rest;
    assert(text =~= line.push('\n') + rest);
    lemma_split_concat(line.push('\n'), rest, '\n');
    assert(line.push('\n').drop_last() =~= line);
    lemma_split_single(line, '\n');
    assert(head_lines(text)[0] == line);
    let y = path + " "@ + version;
    let t = trim(line);
    assert(t =~= "GET "@ + y);
    lemma_split_concat("GET "@, y, ' ');
    assert("GET "@.drop_last() =~= get);
    lemma_split_single(get, ' ');
    assert(y =~= path.push(' ') + version);
    lemma_split_concat(path.push(' '), version, ' ');
    assert(path.push(' ').drop_last() =~= path);
    lemma_split_single(path, ' ');
    lemma_split_single(version, ' ');
    assert(split_on(t, ' ') =~= seq![get, path, version]);
}

/// A header line `<name>: <value>` gives exactly that pair, when the name
/// holds no colon and neither side has whitespace at its ends.
pub proof fn lemma_header_line(name: Seq<char>, value: Seq<char>)
    requires
        unpadded(name),
        unpadded(value),
        forall|i: int| 0 <= i < name.len() ==> name[i] != ':',
    ensures
        header_of(name + ": "@ + value) == Some((name, value)),
{
    reveal_strlit(": ");
    let line = name + ": "@ + value;
    assert(line[0] == name[0]);
    assert(line.last() == value.last());
    lemma_trim_unpadded(line);
    let k = name.len() as int;
    assert(first_at(line, ':', k));
    let c = choose|c: int| first_at(line, ':', c);
    assert(c == k) by {
        if c < k {
            assert(line[c] == name[c]);
        }
    }
    assert(line.take(k) =~= name);
    lemma_trim_unpadded(name);
    let after = line.skip(k + 1);
    assert(after =~= seq![' '] + value);
    assert(trim_start(after) == trim_start(after.drop_first()));
    assert(after.drop_first() =~= value);
    lemma_trim_unpadded(value);
}

/// `m` with the pair of each of `lines` added in order (colon-less lines
/// add nothing).
pub open spec fn fold_lines(lines: Seq<Seq<char>>, m: Map<Seq<char>, Seq<char>>) -> Map<
    Seq<char>,
    Seq<char>,
>
    decreases lines.len(),
{
    if lines.len() == 0 {
        m
    } else {
        let m2 = match header_of(lines[0]) {
            Some(p) => m.insert(p.0, p.1),
            None => m,
        };
        fold_lines(lines.drop_first(), m2)
    }
}

/// Header lines that are not blank, followed by a blank line (or by
/// nothing), all contribute their pairs, and nothing after the blank line
/// does.
pub proof fn lemma_header_block(
    hs: Seq<Seq<char>>,
    tail: Seq<Seq<char>>,
    m: Map<Seq<char>, Seq<char>>,
)
    requires
        forall|i: int| 0 <= i < hs.len() ==> trim(#[trigger] hs[i]).len() > 0,
        tail.len() == 0 || trim(tail[0]).len() == 0,
    ensures
        headers_from(hs + tail, m) == fold_lines(hs, m),
    decreases hs.len(),
{
    if hs.len() == 0 {
        assert(hs + tail =~= tail);
    } else {
        assert((hs + tail)[0] == hs[0]);
        assert((hs + tail).drop_first() =~= hs.drop_first() + tail);
        let m2 = match header_of(hs[0]) {
            Some(p) => m.insert(p.0, p.1),
            None => m,
        };
        lemma_header_block(hs.drop_first(), tail, m2);
    }
}

/// The name of a header line's pair (empty for a colon-less line).
pub open spec fn header_name(line: Seq<char>) -> Seq<char> {
    match header_of(line) {
        Some(p) => p.0,
        None => Seq::empty(),
    }
}

/// The value of a header line's pair (empty for a colon-less line).
pub open spec fn header_value(line: Seq<char>) -> Seq<char> {
    match header_of(line) {
        Some(p) => p.1,
        None => Seq::empty(),
    }
}

/// No header line of `hs` names `k`.
pub open spec fn names_avoid(hs: Seq<Seq<char>>, k: Seq<char>) -> bool {
    forall|i: int| 0 <= i < hs.len() && #[trigger] header_of(hs[i]) is Some ==> header_name(hs[i])
        != k
}

/// With pairwise distinct names, every header line's pair ends up in the
/// map, and the map holds no other new name.
pub proof fn lemma_header_pairs(hs: Seq<Seq<char>>, m: Map<Seq<char>, Seq<char>>)
    requires
        forall|i: int, j: int|
            0 <= i < j < hs.len() && header_of(#[trigger] hs[i]) is Some && header_of(
                #[trigger] hs[j],
            ) is Some ==> header_name(hs[i]) != header_name(hs[j]),
    ensures
        forall|i: int|
            0 <= i < hs.len() && #[trigger] header_of(hs[i]) is Some ==> fold_lines(
                hs,
                m,
            ).contains_key(header_name(hs[i])) && fold_lines(hs, m)[header_name(hs[i])]
                == header_value(hs[i]),
        forall|k: Seq<char>|
            #[trigger] names_avoid(hs, k) ==> (fold_lines(hs, m).contains_key(k) == m.contains_key(k)
                && (m.contains_key(k) ==> fold_lines(hs, m)[k] == m[k])),
        forall|k: Seq<char>|
            #[trigger] fold_lines(hs, m).contains_key(k) ==> m.contains_key(k) || exists|i: int|
                0 <= i < hs.len() && #[trigger] header_of(hs[i]) is Some && header_name(hs[i])
                    == k,
    decreases hs.len(),
{
    if hs.len() > 0 {
        let t = hs.drop_first();
        let m2 = match header_of(hs[0]) {
            Some(p) => m.insert(p.0, p.1),
            None => m,
        };
        assert forall|i: int, j: int|
            0 <= i < j < t.len() && header_of(#[trigger] t[i]) is Some && header_of(
                #[trigger] t[j],
            ) is Some implies header_name(t[i]) != header_name(t[j]) by {
            assert(t[i] == hs[i + 1] && t[j] == hs[j + 1]);
        }
        lemma_header_pairs(t, m2);
        let f = fold_lines(hs, m);
        assert(f == fold_lines(t, m2));
        assert forall|i: int|
            0 <= i < hs.len() && #[trigger] header_of(hs[i]) is Some implies f.contains_key(
            header_name(hs[i]),
        ) && f[header_name(hs[i])] == header_value(hs[i]) by {
            if i > 0 {
                assert(t[i - 1] == hs[i]);
                assert(header_of(t[i - 1]) is Some);
            } else {
                let n = header_name(hs[0]);
                assert forall|j: int|
                    0 <= j < t.len() && #[trigger] header_of(t[j]) is Some implies header_name(t[j]) != n by {
                    assert(t[j] == hs[j + 1]);
                }
                assert(names_avoid(t, n));
                assert(m2 == m.insert(n, header_value(hs[0])));
            }
        }
        assert forall|k: Seq<char>| #[trigger] names_avoid(hs, k) implies (f.contains_key(k)
            == m.contains_key(k) && (m.contains_key(k) ==> f[k] == m[k])) by {
            assert forall|j: int|
                0 <= j < t.len() && #[trigger] header_of(t[j]) is Some implies header_name(t[j]) != k by {
                assert(t[j] == hs[j + 1]);
            }
            assert(names_avoid(t, k));
            if header_of(hs[0]) is Some {
                assert(header_name(hs[0]) != k);
            }
        }
        assert forall|k: Seq<char>| #[trigger] f.contains_key(k) implies m.contains_key(k)
            || exists|i: int|
            0 <= i < hs.len() && #[trigger] header_of(hs[i]) is Some && header_name(hs[i])
                == k by {
            if !m.contains_key(k) {
                if m2.contains_key(k) {
                    assert(header_of(hs[0]) is Some);
                } else {
                    let j = choose|j: int|
                        0 <= j < t.len() && #[trigger] header_of(t[j]) is Some && header_name(t[j]) == k;
                    assert(t[j] == hs[j + 1]);
                    assert(header_of(hs[j + 1]) is Some);
                }
            }
        }
    }
}

} // verus!
