//! Normalising the credentials file into the tab-separated cookie format:
//! domain, subdomain flag, path, secure flag, expiry, name, value.
use vstd::prelude::*;
use crate::driver::{decimal, decimal_string, push_string};
use crate::text::{chars_of, trim, trim_str, views};

verus! {

/// The seconds since the epoch that `DateTime::parse_from_rfc3339` and
/// `DateTime::timestamp` give for a text, or `None` where it is no RFC 3339 date.
pub uninterp spec fn rfc3339_timestamp(s: Seq<char>) -> Option<i64>;

/// The seconds since the epoch that `DateTime::parse_from_str` and
/// `DateTime::timestamp` give for a text in a format, or `None` where it does
/// not match.
pub uninterp spec fn formatted_timestamp(s: Seq<char>, fmt: Seq<char>) -> Option<i64>;

/// Relies on chrono's `DateTime::parse_from_rfc3339`, and `timestamp` on its result.
#[verifier::external_body]
fn rfc3339_seconds(s: &str) -> (r: Option<i64>)
    ensures
        r == rfc3339_timestamp(s@),
{
    match chrono::DateTime::parse_from_rfc3339(s) {
        Ok(d) => Some(d.timestamp()),
        Err(_) => None,
    }
}

/// Relies on chrono's `DateTime::parse_from_str`, and `timestamp` on its result.
#[verifier::external_body]
fn formatted_seconds(s: &str, fmt: &str) -> (r: Option<i64>)
    ensures
        r == formatted_timestamp(s@, fmt@),
{
    match chrono::DateTime::parse_from_str(s, fmt) {
        Ok(d) => Some(d.timestamp()),
        Err(_) => None,
    }
}

/// End of the field that starts at `i`: the next tab, or the end.
pub open spec fn tab_end(t: Seq<char>, i: int) -> int
    decreases t.len() - i,
{
    if 0 <= i < t.len() && t[i] != '\t' {
        tab_end(t, i + 1)
    } else {
        i
    }
}

proof fn lemma_tab_end_bounds(t: Seq<char>, i: int)
    requires
        0 <= i <= t.len(),
    ensures
        i <= tab_end(t, i) <= t.len(),
    decreases t.len() - i,
{
    if i < t.len() && t[i] != '\t' {
        lemma_tab_end_bounds(t, i + 1);
    }
}

/// The tab-separated fields of `t` from index `i` on, empty ones included.
pub open spec fn fields_from(t: Seq<char>, i: int) -> Seq<Seq<char>>
    decreases t.len() - i,
{
    if i < 0 || i > t.len() {
        Seq::empty()
    } else {
        let k = tab_end(t, i);
        if k < i || k >= t.len() {
            seq![t.subrange(i, t.len() as int)]
        } else {
            seq![t.subrange(i, k)] + fields_from(t, k + 1)
        }
    }
}

/// The tab-separated fields of `t`, as `str::split('\t')` gives them.
pub open spec fn fields(t: Seq<char>) -> Seq<Seq<char>> {
    fields_from(t, 0)
}

pub fn split_tabs(s: &str) -> (r: Vec<String>)
    ensures
        views(r@) == fields(s@),
{
    let v = chars_of(s);
    let n = v.len();
    let mut r: Vec<String> = Vec::new();
    let mut i: usize = 0;
    assert(views(r@) =~= Seq::<Seq<char>>::empty());
    loop
        invariant
            n == v@.len() == s@.len(),
            v@ == s@,
            i <= n,
            views(r@) + fields_from(v@, i as int) == fields(v@),
        decreases n - i,
    {
        let ghost i0 = i as int;
        proof {
            lemma_tab_end_bounds(v@, i0);
        }
        let mut k: usize = i;
        while k < n && v[k] != '\t'
            invariant
                i <= k <= n == v@.len(),
                tab_end(v@, i as int) == tab_end(v@, k as int),
            decreases n - k,
        {
            k = k + 1;
        }
        let ghost old_r = r@;
        r.push(String::from_str(s.substring_char(i, k)));
        assert(views(r@) =~= views(old_r) + seq![v@.subrange(i0, k as int)]);
        if k == n {
            assert(views(r@) =~= views(old_r) + fields_from(v@, i0));
            return r;
        }
        assert(views(r@) + fields_from(v@, k + 1) =~= views(old_r) + fields_from(v@, i0));
        i = k + 1;
    }
}

/// The decimal text of a signed integer.
pub open spec fn signed_decimal(n: int) -> Seq<char> {
    if n < 0 {
        "-"@ + decimal((-n) as nat)
    } else {
        decimal(n as nat)
    }
}

pub fn signed_decimal_string(n: i64) -> (r: String)
    ensures
        r@ == signed_decimal(n as int),
{
    if n < 0 {
        let m = (-(n as i128)) as u64;
        String::from_str("-").concat(decimal_string(m).as_str())
    } else {
        decimal_string(n as u64)
    }
}

/// The format of HTTP dates, as the exported rows write them.
pub open spec fn http_date_format() -> Seq<char> {
    "%a, %d %b %Y %H:%M:%S GMT"@
}

/// The expiry in seconds: an RFC 3339 date, else an HTTP date, else 0.
pub open spec fn expiry_of(e: Seq<char>) -> i64 {
    match rfc3339_timestamp(e) {
        Some(t) => t,
        None => match formatted_timestamp(e, http_date_format()) {
            Some(t) => t,
            None => 0,
        },
    }
}

/// A line that holds no record: blank, or starting with `#`.
pub open spec fn cookie_line_ignored(l: Seq<char>) -> bool {
    trim(l).len() == 0 || (l.len() > 0 && l[0] == '#')
}

pub open spec fn flag(b: bool) -> Seq<char> {
    if b {
        "TRUE"@
    } else {
        "FALSE"@
    }
}

/// The normalised record for the fields of an exported row (name, value,
/// domain, path, expiry, ..., and in the eighth field a check mark for a secure
/// cookie), with the expiry already read as `ts`.
pub open spec fn cookie_record(f: Seq<Seq<char>>, ts: int) -> Seq<char> {
    let domain = trim(f[2]);
    let path = if trim(f[3]).len() == 0 {
        "/"@
    } else {
        trim(f[3])
    };
    let secure = f.len() > 7 && trim(f[7]) == seq!['\u{2713}'];
    domain + "\t"@ + flag(domain.len() > 0 && domain[0] == '.') + "\t"@ + path + "\t"@ + flag(secure) + "\t"@
        + signed_decimal(ts) + "\t"@ + trim(f[0]) + "\t"@ + trim(f[1])
}

fn flag_str(b: bool) -> (r: &'static str)
    ensures
        r@ == flag(b),
{
    if b {
        "TRUE"
    } else {
        "FALSE"
    }
}

/// The normalised record for the fields `f`, given the expiry in seconds.
pub fn cookie_record_line(f: &Vec<String>, ts: i64) -> (r: String)
    requires
        f@.len() >= 7,
    ensures
        r@ == cookie_record(views(f@), ts as int),
{
    let ghost fv = views(f@);
    assert(fv[2] == f@[2]@ && fv[3] == f@[3]@ && fv[0] == f@[0]@ && fv[1] == f@[1]@);
    let domain = trim_str(f[2].as_str());
    let raw_path = trim_str(f[3].as_str());
    let path = if raw_path.unicode_len() == 0 {
        String::from_str("/")
    } else {
        raw_path
    };
    let secure = if f.len() > 7 {
        assert(fv[7] == f@[7]@);
        let s = trim_str(f[7].as_str());
        let sv = chars_of(s.as_str());
        let b = sv.len() == 1 && sv[0] == '\u{2713}';
        assert(b == (s@ == seq!['\u{2713}'])) by {
            if b {
                assert(s@ =~= seq!['\u{2713}']);
            }
        }
        b
    } else {
        false
    };
    let dv = chars_of(domain.as_str());
    let sub = dv.len() > 0 && dv[0] == '.';
    let name = trim_str(f[0].as_str());
    let value = trim_str(f[1].as_str());
    let r = domain.concat("\t").concat(flag_str(sub)).concat("\t").concat(path.as_str()).concat("\t").concat(
        flag_str(secure),
    ).concat("\t").concat(signed_decimal_string(ts).as_str()).concat("\t").concat(name.as_str()).concat(
        "\t",
    ).concat(value.as_str());
    r
}

/// The normalised record for one line of the credentials file, or `None`
/// where the line is blank, a comment, or has fewer than seven fields.
pub fn normalize_cookie_line(line: &str) -> (r: Option<String>)
    ensures
        (cookie_line_ignored(line@) || fields(line@).len() < 7) ==> r is None,
        !(cookie_line_ignored(line@) || fields(line@).len() < 7) ==> r is Some && r->Some_0@
            == cookie_record(fields(line@), expiry_of(trim(fields(line@)[4])) as int),
{
    let t = trim_str(line);
    let lv = chars_of(line);
    if t.unicode_len() == 0 || (lv.len() > 0 && lv[0] == '#') {
        return None;
    }
    let f = split_tabs(line);
    if f.len() < 7 {
        return None;
    }
    assert(views(f@)[4] == f@[4]@);
    let e = trim_str(f[4].as_str());
    let ts = match rfc3339_seconds(e.as_str()) {
        Some(t) => t,
        None => match formatted_seconds(e.as_str(), "%a, %d %b %Y %H:%M:%S GMT") {
            Some(t) => t,
            None => 0,
        },
    };
    Some(cookie_record_line(&f, ts))
}

/// Whether a line of the credentials file holds a record.
pub open spec fn holds_record(l: Seq<char>) -> bool {
    !(cookie_line_ignored(l) || fields(l).len() < 7)
}

pub open spec fn record_of(l: Seq<char>) -> Seq<char> {
    cookie_record(fields(l), expiry_of(trim(fields(l)[4])) as int)
}

/// The records of the first `n` lines, in order.
pub open spec fn cookie_records(lines: Seq<Seq<char>>, n: int) -> Seq<Seq<char>>
    decreases n,
{
    if n <= 0 {
        Seq::empty()
    } else {
        let prev = cookie_records(lines, n - 1);
        if holds_record(lines[n - 1]) {
            prev.push(record_of(lines[n - 1]))
        } else {
            prev
        }
    }
}

/// The normalised file: a header line, then one record for each line that holds one.
pub fn normalize_cookie_lines(lines: &Vec<String>) -> (r: Vec<String>)
    ensures
        views(r@) == seq!["# Netscape HTTP Cookie File"@] + cookie_records(views(lines@), lines@.len() as int),
{
    let ghost ls = views(lines@);
    let mut r: Vec<String> = Vec::new();
    r.push(String::from_str("# Netscape HTTP Cookie File"));
    let ghost header = seq!["# Netscape HTTP Cookie File"@];
    assert(views(r@) =~= header + cookie_records(ls, 0));
    let mut i: usize = 0;
    while i < lines.len()
        invariant
            ls == views(lines@),
            ls.len() == lines@.len(),
            i <= lines@.len(),
            header == seq!["# Netscape HTTP Cookie File"@],
            views(r@) == header + cookie_records(ls, i as int),
        decreases lines@.len() - i,
    {
        assert(ls[i as int] == lines@[i as int]@);
        let ghost old_r = r@;
        match normalize_cookie_line(lines[i].as_str()) {
            Some(rec) => {
                push_string(&mut r, rec);
                assert(views(r@) =~= header + cookie_records(ls, i as int + 1));
            },
            None => {},
        }
        i = i + 1;
    }
    r
}

} // verus!
