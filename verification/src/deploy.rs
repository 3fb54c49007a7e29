//! The decisions of the `deploy`, `rm` and `status` commands: the Worker
//! name, the Basic Auth credential, whether a cached account is reused, and
//! the small texts shown along the way. The commands themselves (network,
//! files, terminal) run around these.

use vstd::prelude::*;
use crate::encoding::{base64_encode, base64_standard};
use crate::md::find_char;
use crate::state::{usable_spec, TempAccount};
use crate::target::Mode;
use crate::text::{chars_of, decimal, decimal_string, push_str, string_of, trim, trim_str};
use vstd::utf8::encode_utf8;

verus! {

/// `str::to_lowercase`'s result for `s`: the Unicode lowercase mapping.
pub uninterp spec fn unicode_lowercase(s: Seq<char>) -> Seq<char>;

/// ASCII lowercase of one character.
pub open spec fn ascii_lower(c: char) -> char {
    if 'A' <= c <= 'Z' {
        ((c as u32 + 32) as u8) as char
    } else {
        c
    }
}

/// Whether every character is ASCII.
pub open spec fn all_ascii(s: Seq<char>) -> bool {
    forall|i: int| 0 <= i < s.len() ==> (s[i] as u32) < 128
}

/// `str::to_lowercase` from std: the Unicode lowercase of `s`, a function of
/// `s` alone. On ASCII text it lowercases `A`-`Z` and keeps every other
/// character; and no lowercase text holds `A`-`Z`, since those letters
/// only come from themselves and map to `a`-`z`. What it does to other
/// characters is left to the name.
#[verifier::external_body]
fn to_lowercase(s: &str) -> (r: String)
    ensures
        r@ == unicode_lowercase(s@),
        all_ascii(s@) ==> r@ == s@.map_values(|c: char| ascii_lower(c)),
        forall|i: int| 0 <= i < r@.len() ==> !('A' <= #[trigger] r@[i] <= 'Z'),
{
    s.to_lowercase()
}

/// Whether `c` is an ASCII letter or digit.
pub open spec fn is_ascii_alnum(c: char) -> bool {
    ('0' <= c <= '9') || ('a' <= c <= 'z') || ('A' <= c <= 'Z')
}

/// Every character that is not an ASCII letter or digit becomes `-`.
pub open spec fn dash_others(s: Seq<char>) -> Seq<char> {
    s.map_values(|c: char| if is_ascii_alnum(c) { c } else { '-' })
}

/// Each run of `-` shortened to one `-`.
pub open spec fn collapse_dashes(s: Seq<char>) -> Seq<char>
    decreases s.len(),
{
    if s.len() == 0 {
        Seq::empty()
    } else {
        let p = collapse_dashes(s.drop_last());
        if s.last() == '-' && p.len() > 0 && p.last() == '-' {
            p
        } else {
            p.push(s.last())
        }
    }
}

/// `s` without leading `-`.
pub open spec fn trim_dashes_start(s: Seq<char>) -> Seq<char>
    decreases s.len(),
{
    if s.len() > 0 && s[0] == '-' {
        trim_dashes_start(s.drop_first())
    } else {
        s
    }
}

/// `s` without trailing `-`.
pub open spec fn trim_dashes_end(s: Seq<char>) -> Seq<char>
    decreases s.len(),
{
    if s.len() > 0 && s.last() == '-' {
        trim_dashes_end(s.drop_last())
    } else {
        s
    }
}

/// The longest Worker name kept.
pub const MAX_NAME_CHARS: usize = 54;

/// The Worker name for a raw name: lowercased, every character but ASCII
/// letters and digits turned into `-`, runs of `-` shortened to one, `-`
/// trimmed from both ends, at most 54 characters; `cfdrop-site` when
/// nothing is left.
pub open spec fn sanitize_spec(raw: Seq<char>) -> Seq<char> {
    sanitize_lowered(unicode_lowercase(raw))
}

/// [`sanitize_spec`] once the raw name is lowercased: every character but
/// ASCII letters and digits turned into `-`, runs of `-` shortened to one,
/// `-` trimmed from both ends, at most 54 characters; `cfdrop-site` when
/// nothing is left.
pub open spec fn sanitize_lowered(lowered: Seq<char>) -> Seq<char> {
    let t = trim_dashes_end(trim_dashes_start(collapse_dashes(dash_others(lowered))));
    if t.len() == 0 {
        "cfdrop-site"@
    } else if t.len() <= MAX_NAME_CHARS {
        t
    } else {
        t.take(MAX_NAME_CHARS as int)
    }
}

/// Every character of `s` satisfies `ok`.
pub open spec fn all_chars(s: Seq<char>, ok: spec_fn(char) -> bool) -> bool {
    forall|i: int| 0 <= i < s.len() ==> ok(#[trigger] s[i])
}

/// An ASCII letter, an ASCII digit or `-`.
pub open spec fn name_char(c: char) -> bool {
    is_ascii_alnum(c) || c == '-'
}

/// A lowercase ASCII letter, an ASCII digit or `-`.
pub open spec fn lower_name_char(c: char) -> bool {
    ('0' <= c <= '9') || ('a' <= c <= 'z') || c == '-'
}

/// No two `-` stand next to each other.
pub open spec fn no_double_dash(s: Seq<char>) -> bool {
    forall|i: int| 0 <= i && i + 1 < s.len() ==> !(#[trigger] s[i] == '-' && s[i + 1] == '-')
}

/// The shape of every Worker name that `sanitize_name` gives: 1 to 54
/// characters, ASCII letters, digits and single `-`, never a leading `-`,
/// and a trailing `-` only where the name was cut at 54 characters.
pub open spec fn worker_name_shape(s: Seq<char>) -> bool {
    &&& 1 <= s.len() <= MAX_NAME_CHARS
    &&& all_chars(s, |c: char| name_char(c))
    &&& no_double_dash(s)
    &&& s[0] != '-'
    &&& s.len() < MAX_NAME_CHARS ==> s.last() != '-'
}

proof fn lemma_collapse_keeps(s: Seq<char>, ok: spec_fn(char) -> bool)
    requires
        all_chars(s, ok),
    ensures
        all_chars(collapse_dashes(s), ok),
        no_double_dash(collapse_dashes(s)),
    decreases s.len(),
{
    if s.len() > 0 {
        let d = s.drop_last();
        assert forall|i: int| 0 <= i < d.len() implies ok(#[trigger] d[i]) by {
            assert(d[i] == s[i]);
        }
        lemma_collapse_keeps(d, ok);
        let p = collapse_dashes(d);
        if !(s.last() == '-' && p.len() > 0 && p.last() == '-') {
            let q = p.push(s.last());
            assert(ok(s[s.len() - 1]));
            assert forall|i: int| 0 <= i < q.len() implies ok(#[trigger] q[i]) by {
                if i < p.len() {
                    assert(q[i] == p[i]);
                }
            }
            assert forall|i: int| 0 <= i && i + 1 < q.len() implies !(#[trigger] q[i] == '-' && q[i + 1] == '-') by {
                if i + 1 < p.len() {
                    assert(q[i] == p[i] && q[i + 1] == p[i + 1]);
                }
            }
        }
    }
}

proof fn lemma_trim_start_suffix(s: Seq<char>)
    ensures
        exists|k: int| 0 <= k <= s.len() && trim_dashes_start(s) == s.skip(k),
        trim_dashes_start(s).len() > 0 ==> trim_dashes_start(s)[0] != '-',
    decreases s.len(),
{
    if s.len() > 0 && s[0] == '-' {
        lemma_trim_start_suffix(s.drop_first());
        let k = choose|k: int|
            0 <= k <= s.drop_first().len() && trim_dashes_start(s.drop_first()) == s.drop_first().skip(k);
        assert(s.drop_first().skip(k) =~= s.skip(k + 1));
    } else {
        assert(s.skip(0) =~= s);
    }
}

proof fn lemma_trim_end_prefix(s: Seq<char>)
    ensures
        exists|k: int| 0 <= k <= s.len() && trim_dashes_end(s) == s.take(k),
        trim_dashes_end(s).len() > 0 ==> trim_dashes_end(s).last() != '-',
    decreases s.len(),
{
    if s.len() > 0 && s.last() == '-' {
        lemma_trim_end_prefix(s.drop_last());
        let k = choose|k: int| 0 <= k <= s.drop_last().len() && trim_dashes_end(s.drop_last()) == s.drop_last().take(k);
        assert(s.drop_last().take(k) =~= s.take(k));
    } else {
        assert(s.take(s.len() as int) =~= s);
    }
}

proof fn lemma_slice_keeps(s: Seq<char>, a: int, b: int, ok: spec_fn(char) -> bool)
    requires
        0 <= a <= b <= s.len(),
        all_chars(s, ok),
        no_double_dash(s),
    ensures
        all_chars(s.subrange(a, b), ok),
        no_double_dash(s.subrange(a, b)),
{
    let t = s.subrange(a, b);
    assert forall|i: int| 0 <= i < t.len() implies ok(#[trigger] t[i]) by {
        assert(t[i] == s[i + a]);
    }
    assert forall|i: int| 0 <= i && i + 1 < t.len() implies !(#[trigger] t[i] == '-' && t[i + 1] == '-') by {
        assert(t[i] == s[i + a] && t[i + 1] == s[i + a + 1]);
    }
}

proof fn lemma_sanitize_keeps(raw: Seq<char>, ok: spec_fn(char) -> bool)
    requires
        all_chars(dash_others(unicode_lowercase(raw)), ok),
        all_chars("cfdrop-site"@, ok),
    ensures
        all_chars(sanitize_spec(raw), ok),
        worker_name_shape(sanitize_spec(raw)),
{
    let lc = unicode_lowercase(raw);
    let m = dash_others(lc);
    lemma_collapse_keeps(m, ok);
    assert forall|i: int| 0 <= i < m.len() implies name_char(#[trigger] m[i]) by {
        assert(m[i] == (if is_ascii_alnum(lc[i]) { lc[i] } else { '-' }));
    }
    lemma_collapse_keeps(m, |c: char| name_char(c));
    let c = collapse_dashes(m);
    lemma_trim_start_suffix(c);
    let a = trim_dashes_start(c);
    let ka = choose|k: int| 0 <= k <= c.len() && a == c.skip(k);
    assert(c.skip(ka) =~= c.subrange(ka, c.len() as int));
    lemma_slice_keeps(c, ka, c.len() as int, ok);
    lemma_slice_keeps(c, ka, c.len() as int, |c: char| name_char(c));
    lemma_trim_end_prefix(a);
    let t = trim_dashes_end(a);
    let kt = choose|k: int| 0 <= k <= a.len() && t == a.take(k);
    assert(a.take(kt) =~= a.subrange(0, kt));
    lemma_slice_keeps(a, 0, kt, ok);
    lemma_slice_keeps(a, 0, kt, |c: char| name_char(c));
    if t.len() == 0 {
        reveal_strlit("cfdrop-site");
        let f = "cfdrop-site"@;
        assert(f.len() == 11);
        assert forall|i: int| 0 <= i < f.len() implies name_char(#[trigger] f[i]) by {}
        assert forall|i: int| 0 <= i && i + 1 < f.len() implies !(#[trigger] f[i] == '-' && f[i + 1] == '-') by {}
    } else {
        assert(t[0] == a[0]);
        if t.len() > MAX_NAME_CHARS {
            assert(t.take(MAX_NAME_CHARS as int) =~= t.subrange(0, MAX_NAME_CHARS as int));
            lemma_slice_keeps(t, 0, MAX_NAME_CHARS as int, ok);
            lemma_slice_keeps(t, 0, MAX_NAME_CHARS as int, |c: char| name_char(c));
            assert(t.take(MAX_NAME_CHARS as int)[0] == t[0]);
        }
    }
}

/// Whatever the raw name, the sanitized one is a valid Worker name:
/// 1 to 54 characters, only ASCII letters, digits and single dashes, no
/// leading dash, and a trailing dash only where the cut at 54 characters
/// left one.
pub proof fn lemma_sanitized_name_shape(raw: Seq<char>)
    ensures
        worker_name_shape(sanitize_spec(raw)),
{
    let m = dash_others(unicode_lowercase(raw));
    assert forall|i: int| 0 <= i < m.len() implies name_char(#[trigger] m[i]) by {}
    reveal_strlit("cfdrop-site");
    let f = "cfdrop-site"@;
    assert forall|i: int| 0 <= i < f.len() implies name_char(#[trigger] f[i]) by {}
    lemma_sanitize_keeps(raw, |c: char| name_char(c));
}

proof fn lemma_sanitized_lowercase(raw: Seq<char>)
    requires
        forall|i: int| 0 <= i < unicode_lowercase(raw).len() ==> !('A' <= #[trigger] unicode_lowercase(raw)[i] <= 'Z'),
    ensures
        all_chars(sanitize_spec(raw), |c: char| lower_name_char(c)),
{
    let lc = unicode_lowercase(raw);
    let m = dash_others(lc);
    assert forall|i: int| 0 <= i < m.len() implies lower_name_char(#[trigger] m[i]) by {
        assert(!('A' <= lc[i] <= 'Z'));
    }
    reveal_strlit("cfdrop-site");
    let f = "cfdrop-site"@;
    assert forall|i: int| 0 <= i < f.len() implies lower_name_char(#[trigger] f[i]) by {}
    lemma_sanitize_keeps(raw, |c: char| lower_name_char(c));
}

proof fn lemma_collapse_keeps_single_dashes(s: Seq<char>)
    requires
        no_double_dash(s),
    ensures
        collapse_dashes(s) == s,
    decreases s.len(),
{
    if s.len() > 0 {
        let d = s.drop_last();
        assert forall|i: int| 0 <= i && i + 1 < d.len() implies !(#[trigger] d[i] == '-' && d[i + 1] == '-') by {
            assert(d[i] == s[i] && d[i + 1] == s[i + 1]);
        }
        lemma_collapse_keeps_single_dashes(d);
        if d.len() > 0 {
            assert(d.last() == s[s.len() - 2]);
        }
        assert(d.push(s.last()) =~= s);
    }
}

/// A name that `sanitize_name` gives, and that does not end in `-`, comes
/// back unchanged when it is sanitized again.
pub proof fn lemma_sanitize_idempotent(name: Seq<char>)
    requires
        worker_name_shape(name),
        all_chars(name, |c: char| lower_name_char(c)),
        name.last() != '-',
    ensures
        name.map_values(|c: char| ascii_lower(c)) == name,
        sanitize_lowered(name.map_values(|c: char| ascii_lower(c))) == name,
{
    let l = name.map_values(|c: char| ascii_lower(c));
    assert forall|i: int| 0 <= i < name.len() implies #[trigger] l[i] == name[i] by {
        assert(lower_name_char(name[i]));
    }
    assert(l =~= name);
    let m = dash_others(name);
    assert forall|i: int| 0 <= i < name.len() implies #[trigger] m[i] == name[i] by {
        assert(lower_name_char(name[i]));
    }
    assert(m =~= name);
    lemma_collapse_keeps_single_dashes(name);
    assert(trim_dashes_start(name) == name);
    assert(trim_dashes_end(name) == name);
}

/// Turns a directory or site name into a valid Worker name.
pub fn sanitize_name(raw: &str) -> (name: String)
    ensures
        name@ == sanitize_spec(raw@),
        all_ascii(raw@) ==> name@ == sanitize_lowered(raw@.map_values(|c: char| ascii_lower(c))),
        worker_name_shape(name@),
        all_chars(name@, |c: char| lower_name_char(c)),
        all_ascii(name@),
        name@.last() != '-' ==> sanitize_lowered(name@.map_values(|c: char| ascii_lower(c))) == name@,
{
    let lowered = to_lowercase(raw);
    proof {
        lemma_sanitized_name_shape(raw@);
        lemma_sanitized_lowercase(raw@);
        let nm = sanitize_spec(raw@);
        assert forall|i: int| 0 <= i < nm.len() implies (#[trigger] nm[i] as u32) < 128 by {
            assert(lower_name_char(nm[i]));
        }
        if nm.last() != '-' {
            lemma_sanitize_idempotent(nm);
        }
    }
    let v = chars_of(lowered.as_str());
    let n = v.len();
    let ghost mapped = dash_others(v@);
    // map and collapse in one pass
    let mut c: Vec<char> = Vec::new();
    assert(mapped.take(0) =~= Seq::<char>::empty());
    for i in 0..n
        invariant
            n == v@.len(),
            mapped == dash_others(v@),
            c@ == collapse_dashes(mapped.take(i as int)),
    {
        let ch = v[i];
        let m = if ('0' <= ch && ch <= '9') || ('a' <= ch && ch <= 'z') || ('A' <= ch && ch <= 'Z') {
            ch
        } else {
            '-'
        };
        assert(mapped[i as int] == m);
        assert(mapped.take(i + 1).drop_last() =~= mapped.take(i as int));
        let k = c.len();
        if !(m == '-' && k > 0 && c[k - 1] == '-') {
            c.push(m);
        }
    }
    assert(mapped.take(n as int) =~= mapped);
    // trim dashes at both ends
    let k = c.len();
    let mut a: usize = 0;
    assert(c@.skip(0) =~= c@);
    while a < k && c[a] == '-'
        invariant
            a <= k == c@.len(),
            trim_dashes_start(c@) == trim_dashes_start(c@.skip(a as int)),
        decreases k - a,
    {
        assert(c@.skip(a as int).drop_first() =~= c@.skip(a + 1));
        a = a + 1;
    }
    assert(c@.skip(a as int) =~= c@.subrange(a as int, k as int));
    let mut b: usize = k;
    while b > a && c[b - 1] == '-'
        invariant
            a <= b <= k == c@.len(),
            trim_dashes_end(trim_dashes_start(c@)) == trim_dashes_end(c@.subrange(a as int, b as int)),
        decreases b,
    {
        assert(c@.subrange(a as int, b as int).drop_last() =~= c@.subrange(a as int, b - 1));
        b = b - 1;
    }
    if a == b {
        let mut fallback = String::new();
        push_str(&mut fallback, "cfdrop-site");
        return fallback;
    }
    let end = if b - a <= MAX_NAME_CHARS {
        b
    } else {
        a + MAX_NAME_CHARS
    };
    if b - a > MAX_NAME_CHARS {
        assert(c@.subrange(a as int, b as int).take(MAX_NAME_CHARS as int) =~= c@.subrange(a as int, a + MAX_NAME_CHARS));
    }
    string_of(&c.as_slice()[a..end])
}

/// The Worker name for a deploy: the given name, else the directory's name,
/// else `cfdrop-site`, sanitized.
pub fn script_name_for(name: Option<&str>, dir_name: Option<&str>) -> (s: String)
    ensures
        s@ == sanitize_spec(
            match name {
                Some(n) => n@,
                None => match dir_name {
                    Some(d) => d@,
                    None => "cfdrop-site"@,
                },
            },
        ),
{
    match name {
        Some(n) => sanitize_name(n),
        None => match dir_name {
            Some(d) => sanitize_name(d),
            None => sanitize_name("cfdrop-site"),
        },
    }
}

/// Why a command cannot run as asked.
#[derive(Debug, Clone, PartialEq, Eq)]
pub enum DeployError {
    /// `--fresh` was combined with own-account mode.
    FreshWithOwn,
    /// `--auth` has no `:`.
    AuthNotUserPass,
    /// `--auth` has an empty user or password.
    AuthEmptyPart,
    /// `rm` was asked for without own-account mode.
    RmNeedsOwn,
}

/// The text shown for a command error.
pub open spec fn deploy_error_message(e: DeployError) -> Seq<char> {
    match e {
        DeployError::FreshWithOwn => "--fresh only applies to temporary accounts; drop it when using --own/--account"@,
        DeployError::AuthNotUserPass => "--auth must be in the form user:pass"@,
        DeployError::AuthEmptyPart => "--auth must be in the form user:pass (both non-empty)"@,
        DeployError::RmNeedsOwn => "`cfdrop rm` works on your own account only (set CLOUDFLARE_API_TOKEN and --account / CLOUDFLARE_ACCOUNT_ID); temporary sites expire on their own"@,
    }
}

impl DeployError {
    /// The text shown for this error.
    pub fn message(&self) -> (m: String)
        ensures
            m@ == deploy_error_message(*self),
    {
        let mut m = String::new();
        match self {
            DeployError::FreshWithOwn => push_str(
                &mut m,
                "--fresh only applies to temporary accounts; drop it when using --own/--account",
            ),
            DeployError::AuthNotUserPass => push_str(&mut m, "--auth must be in the form user:pass"),
            DeployError::AuthEmptyPart => push_str(
                &mut m,
                "--auth must be in the form user:pass (both non-empty)",
            ),
            DeployError::RmNeedsOwn => push_str(
                &mut m,
                "`cfdrop rm` works on your own account only (set CLOUDFLARE_API_TOKEN and --account / CLOUDFLARE_ACCOUNT_ID); temporary sites expire on their own",
            ),
        }
        m
    }
}

/// `--fresh` only applies to temporary accounts.
pub fn check_fresh(fresh: bool, mode: &Mode) -> (r: Result<(), DeployError>)
    ensures
        r is Err <==> fresh && mode is Own,
        r matches Err(e) ==> e == DeployError::FreshWithOwn,
{
    match mode {
        Mode::Own { .. } => if fresh {
            Err(DeployError::FreshWithOwn)
        } else {
            Ok(())
        },
        Mode::Temporary => Ok(()),
    }
}

/// The Basic Auth credential `user:pass` checked and encoded: the standard
/// base64 of its UTF-8 when it has a `:` with text on both sides.
pub open spec fn basic_auth_spec(cred: Seq<char>) -> Result<Seq<char>, DeployError> {
    match find_char(cred, ':') {
        None => Err(DeployError::AuthNotUserPass),
        Some(i) => if i == 0 || i + 1 == cred.len() {
            Err(DeployError::AuthEmptyPart)
        } else {
            Ok(base64_standard(encode_utf8(cred)))
        },
    }
}

/// Validates and encodes the `--auth user:pass` credential, if one was given.
pub fn basic_auth_token(auth: Option<&str>) -> (r: Result<Option<String>, DeployError>)
    ensures
        match auth {
            None => r == Ok::<Option<String>, DeployError>(None),
            Some(cred) => match basic_auth_spec(cred@) {
                Ok(t) => r matches Ok(Some(s)) && s@ == t,
                Err(e) => r == Err::<Option<String>, DeployError>(e),
            },
        },
{
    match auth {
        None => Ok(None),
        Some(cred) => {
            let v = chars_of(cred);
            let n = v.len();
            let mut i: usize = 0;
            assert(v@.skip(0) =~= v@);
            while i < n && v[i] != ':'
                invariant
                    i <= n == v@.len(),
                    v@ == cred@,
                    find_char(v@, ':') == match find_char(v@.skip(i as int), ':') {
                        Some(j) => Some(j + i),
                        None => None,
                    },
                decreases n - i,
            {
                assert(v@.skip(i as int).drop_first() =~= v@.skip(i + 1));
                i = i + 1;
            }
            if i == n {
                assert(v@.skip(n as int) =~= Seq::<char>::empty());
                return Err(DeployError::AuthNotUserPass);
            }
            if i == 0 || i + 1 == n {
                return Err(DeployError::AuthEmptyPart);
            }
            Ok(Some(base64_encode(cred.as_bytes())))
        },
    }
}

/// What `deploy` checks before it touches the directory or the network,
/// in this order: `--fresh` is refused with own-account mode, then the
/// `--auth` credential is checked and encoded.
pub fn deploy_preflight(fresh: bool, mode: &Mode, auth: Option<&str>) -> (r: Result<Option<String>, DeployError>)
    ensures
        fresh && mode is Own ==> r == Err::<Option<String>, DeployError>(DeployError::FreshWithOwn),
        !(fresh && mode is Own) ==> match auth {
            None => r == Ok::<Option<String>, DeployError>(None),
            Some(cred) => match basic_auth_spec(cred@) {
                Ok(t) => r matches Ok(Some(s)) && s@ == t,
                Err(e) => r == Err::<Option<String>, DeployError>(e),
            },
        },
{
    match check_fresh(fresh, mode) {
        Err(e) => Err(e),
        Ok(()) => basic_auth_token(auth),
    }
}

/// The cached account to reuse: none with `fresh`, else the cached one if
/// it is usable at `now` with `margin` to spare (milliseconds).
pub fn reusable_account(fresh: bool, cached: Option<TempAccount>, now: i64, margin: i64) -> (r: Option<TempAccount>)
    ensures
        match r {
            Some(a) => !fresh && cached == Some(a) && usable_spec(
                a.account_expires_at as int,
                a.claim_expires_at as int,
                now as int,
                margin as int,
            ),
            None => fresh || match cached {
                Some(a) => !usable_spec(a.account_expires_at as int, a.claim_expires_at as int, now as int, margin as int),
                None => true,
            },
        },
{
    if fresh {
        return None;
    }
    match cached {
        Some(a) => if a.is_usable(now, margin) {
            Some(a)
        } else {
            None
        },
        None => None,
    }
}

/// Whether an answer to a yes/no prompt is yes: `y` or `yes` in any case,
/// surrounding whitespace ignored.
pub open spec fn affirmative_spec(line: Seq<char>) -> bool {
    let a = unicode_lowercase(trim(line));
    a == seq!['y'] || a == seq!['y', 'e', 's']
}

/// Whether the answer to the terms prompt accepts them.
pub fn is_affirmative(line: &str) -> (r: bool)
    ensures
        r == affirmative_spec(line@),
{
    let t = trim_str(line);
    let a = to_lowercase(t.as_str());
    let v = chars_of(a.as_str());
    let r = (v.len() == 1 && v[0] == 'y') || (v.len() == 3 && v[0] == 'y' && v[1] == 'e' && v[2] == 's');
    proof {
        if v@.len() == 1 && v@[0] == 'y' {
            assert(v@ =~= seq!['y']);
        }
        if v@.len() == 3 && v@[0] == 'y' && v@[1] == 'e' && v@[2] == 's' {
            assert(v@ =~= seq!['y', 'e', 's']);
        }
    }
    r
}

/// `s` without its trailing `/` characters.
pub open spec fn strip_slashes(s: Seq<char>) -> Seq<char>
    decreases s.len(),
{
    if s.len() > 0 && s.last() == '/' {
        strip_slashes(s.drop_last())
    } else {
        s
    }
}

/// Where a relay takes a pushed URL: its endpoint without trailing `/`,
/// then `/push`.
pub fn relay_push_url(endpoint: &str) -> (url: String)
    ensures
        url@ == strip_slashes(endpoint@) + "/push"@,
{
    let v = chars_of(endpoint);
    let mut n = v.len();
    assert(v@.take(n as int) =~= v@);
    while n > 0 && v[n - 1] == '/'
        invariant
            n <= v@.len(),
            v@ == endpoint@,
            strip_slashes(endpoint@) == strip_slashes(v@.take(n as int)),
        decreases n,
    {
        assert(v@.take(n as int).drop_last() =~= v@.take(n - 1));
        n = n - 1;
    }
    let mut url = string_of(&v.as_slice()[0..n]);
    push_str(&mut url, "/push");
    url
}

/// The live URL of a Worker on workers.dev.
pub fn deployed_url(script_name: &str, subdomain: &str) -> (url: String)
    ensures
        url@ == "https://"@ + script_name@ + "."@ + subdomain@ + ".workers.dev"@,
{
    let mut url = String::new();
    push_str(&mut url, "https://");
    push_str(&mut url, script_name);
    push_str(&mut url, ".");
    push_str(&mut url, subdomain);
    push_str(&mut url, ".workers.dev");
    url
}

/// What `status` says of the own-account environment, given the values of
/// `CLOUDFLARE_API_TOKEN` and `CLOUDFLARE_ACCOUNT_ID` (empty counts as unset).
pub open spec fn own_env_summary_spec(token: Option<Seq<char>>, account: Option<Seq<char>>) -> Seq<char> {
    let tok = token is Some && token.unwrap().len() > 0;
    let acc = account is Some && account.unwrap().len() > 0;
    if tok && acc {
        "token + account "@ + account.unwrap() + " set \u{2192} `deploy` goes to your own account"@
    } else if tok {
        "token set, no account \u{2192} `deploy` is still temporary (add --own or CLOUDFLARE_ACCOUNT_ID)"@
    } else if acc {
        "account "@ + account.unwrap() + " set but no CLOUDFLARE_API_TOKEN \u{2192} `deploy` will error"@
    } else {
        "not set \u{2192} `deploy` uses a temporary account"@
    }
}

/// Describes which account `deploy` will use from the environment.
pub fn own_env_summary(token: Option<&str>, account: Option<&str>) -> (s: String)
    ensures
        s@ == own_env_summary_spec(
            match token {
                Some(t) => Some(t@),
                None => None,
            },
            match account {
                Some(a) => Some(a@),
                None => None,
            },
        ),
{
    let tok = match token {
        Some(t) => !t.is_empty(),
        None => false,
    };
    let mut s = String::new();
    match account {
        Some(a) => if !a.is_empty() {
            if tok {
                push_str(&mut s, "token + account ");
                push_str(&mut s, a);
                push_str(&mut s, " set \u{2192} `deploy` goes to your own account");
            } else {
                push_str(&mut s, "account ");
                push_str(&mut s, a);
                push_str(&mut s, " set but no CLOUDFLARE_API_TOKEN \u{2192} `deploy` will error");
            }
            return s;
        },
        None => {},
    }
    if tok {
        push_str(
            &mut s,
            "token set, no account \u{2192} `deploy` is still temporary (add --own or CLOUDFLARE_ACCOUNT_ID)",
        );
    } else {
        push_str(&mut s, "not set \u{2192} `deploy` uses a temporary account");
    }
    s
}

/// Whole minutes left until `claim_expires_at`, never below zero (times in
/// milliseconds).
pub fn minutes_left(claim_expires_at: i64, now: i64) -> (m: i64)
    ensures
        claim_expires_at > now ==> m == (claim_expires_at - now) / 60_000,
        claim_expires_at <= now ==> m == 0,
{
    let d = claim_expires_at as i128 - now as i128;
    if d <= 0 {
        0
    } else {
        (d / 60_000) as i64
    }
}

/// The guard script up to the expected credential.
pub const GUARD_HEAD: &'static str = "export default { async fetch(request, env) {\n  if (request.headers.get(\"Authorization\") !== \"Basic ";

/// The guard script after the expected credential.
pub const GUARD_TAIL: &'static str = "\") {\n    return new Response(\"Authentication required\", { status: 401, headers: { \"WWW-Authenticate\": 'Basic realm=\"cfdrop\"' } });\n  }\n  return env.ASSETS.fetch(request);\n} };\n";

/// The Worker module that guards a site with HTTP Basic Auth: it answers 401
/// with a `WWW-Authenticate` challenge unless the request's
/// `Authorization` header is `Basic ` followed by `token` (the base64
/// `user:pass` from [`basic_auth_token`]), and otherwise serves the assets.
pub fn guard_script(token: &str) -> (s: String)
    ensures
        s@ == GUARD_HEAD@ + token@ + GUARD_TAIL@,
{
    let mut s = String::new();
    push_str(&mut s, GUARD_HEAD);
    push_str(&mut s, token);
    push_str(&mut s, GUARD_TAIL);
    s
}

/// The cache-busting address of the `attempt`-th probe of a fresh site:
/// `{url}/?cfdrop-warmup={attempt}`.
pub fn warmup_url(url: &str, attempt: u32) -> (probe: String)
    ensures
        probe@ == url@ + "/?cfdrop-warmup="@ + decimal(attempt as nat),
{
    let mut probe = String::new();
    push_str(&mut probe, url);
    push_str(&mut probe, "/?cfdrop-warmup=");
    let n = decimal_string(attempt as u128);
    push_str(&mut probe, n.as_str());
    probe
}

/// What to do after probing a fresh deployment.
#[derive(Debug, Clone, Copy, PartialEq, Eq)]
pub enum ProbeStep {
    /// The site answered: stop waiting.
    Live,
    /// The time is up: give up.
    GiveUp,
    /// Wait a second and probe again.
    Retry,
}

/// The next step of waiting for a site to go live, after a probe that
/// succeeded or not, `elapsed` of at most `max` having passed.
pub fn probe_step(ok: bool, elapsed_ms: u64, max_ms: u64) -> (s: ProbeStep)
    ensures
        ok ==> s == ProbeStep::Live,
        !ok && elapsed_ms >= max_ms ==> s == ProbeStep::GiveUp,
        !ok && elapsed_ms < max_ms ==> s == ProbeStep::Retry,
{
    if ok {
        ProbeStep::Live
    } else if elapsed_ms >= max_ms {
        ProbeStep::GiveUp
    } else {
        ProbeStep::Retry
    }
}

/// The account id (if given) and token that `rm` works with; `rm` only
/// works on the user's own account.
pub fn own_target(mode: Mode) -> (r: Result<(Option<String>, String), DeployError>)
    ensures
        match mode {
            Mode::Own { account_id, api_token, .. } => r == Ok::<(Option<String>, String), DeployError>((account_id, api_token)),
            Mode::Temporary => r == Err::<(Option<String>, String), DeployError>(DeployError::RmNeedsOwn),
        },
{
    match mode {
        Mode::Own { account_id, api_token, .. } => Ok((account_id, api_token)),
        Mode::Temporary => Err(DeployError::RmNeedsOwn),
    }
}

} // verus!
