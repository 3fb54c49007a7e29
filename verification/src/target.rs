//! Where a deploy goes: a throwaway preview account (the default) or the
//! user's own Cloudflare account.
//!
//! Own-account mode is opt-in and must be explicit: `--own`, `--account`, or
//! `CLOUDFLARE_ACCOUNT_ID`. A bare `CLOUDFLARE_API_TOKEN` does not switch
//! modes. The token is only ever taken from the environment or a file.

use vstd::prelude::*;
use crate::text::{decimal, decimal_string, push_str, str_eq, trim, trim_str};

verus! {

/// Where a deploy goes, resolved before any network call.
#[derive(Debug, Clone, PartialEq, Eq)]
pub enum Mode {
    /// Provision (or reuse) a temporary preview account.
    Temporary,
    /// Deploy into the user's own account with their token. `account_id` is
    /// `None` when it must be inferred from the accounts the token can see.
    Own {
        account_id: Option<String>,
        api_token: String,
        /// Where the token came from, for the deploy summary.
        token_source: &'static str,
    },
}

/// The mathematical value of a [`Mode`].
pub enum ModeView {
    Temporary,
    Own { account_id: Option<Seq<char>>, api_token: Seq<char>, token_source: Seq<char> },
}

/// The characters of an optional string.
pub open spec fn opt_view(o: Option<String>) -> Option<Seq<char>> {
    match o {
        Some(s) => Some(s@),
        None => None,
    }
}

impl View for Mode {
    type V = ModeView;

    open spec fn view(&self) -> ModeView {
        match self {
            Mode::Temporary => ModeView::Temporary,
            Mode::Own { account_id, api_token, token_source } => ModeView::Own {
                account_id: opt_view(*account_id),
                api_token: api_token@,
                token_source: token_source@,
            },
        }
    }
}

/// Raw inputs of the mode decision: the command-line flags and the two
/// environment variables.
#[derive(Debug, Default, Clone)]
pub struct Inputs {
    pub own_flag: bool,
    pub temporary_flag: bool,
    pub account_flag: Option<String>,
    pub token_file: Option<String>,
    pub env_account_id: Option<String>,
    pub env_api_token: Option<String>,
}

/// The mathematical value of [`Inputs`].
pub struct InputsView {
    pub own_flag: bool,
    pub temporary_flag: bool,
    pub account_flag: Option<Seq<char>>,
    pub token_file: Option<Seq<char>>,
    pub env_account_id: Option<Seq<char>>,
    pub env_api_token: Option<Seq<char>>,
}

impl View for Inputs {
    type V = InputsView;

    open spec fn view(&self) -> InputsView {
        InputsView {
            own_flag: self.own_flag,
            temporary_flag: self.temporary_flag,
            account_flag: opt_view(self.account_flag),
            token_file: opt_view(self.token_file),
            env_account_id: opt_view(self.env_account_id),
            env_api_token: opt_view(self.env_api_token),
        }
    }
}

/// An environment value counts as set only when it is not blank.
pub open spec fn nonblank(o: Option<String>) -> Option<String> {
    match o {
        Some(s) => if trim(s@).len() > 0 { Some(s) } else { None },
        None => None,
    }
}

fn keep_nonblank(o: Option<String>) -> (r: Option<String>)
    ensures
        r == nonblank(o),
{
    match o {
        Some(s) => {
            let t = trim_str(s.as_str());
            if t.as_str().is_empty() {
                None
            } else {
                Some(s)
            }
        },
        None => None,
    }
}

impl Inputs {
    /// Builds the inputs from the flags and the raw values of
    /// `CLOUDFLARE_ACCOUNT_ID` / `CLOUDFLARE_API_TOKEN` (the wrangler names);
    /// blank values count as unset.
    pub fn from_env(
        own_flag: bool,
        temporary_flag: bool,
        account_flag: Option<String>,
        token_file: Option<String>,
        env_account_id: Option<String>,
        env_api_token: Option<String>,
    ) -> (r: Self)
        ensures
            r.own_flag == own_flag,
            r.temporary_flag == temporary_flag,
            r.account_flag == account_flag,
            r.token_file == token_file,
            r.env_account_id == nonblank(env_account_id),
            r.env_api_token == nonblank(env_api_token),
    {
        Inputs {
            own_flag,
            temporary_flag,
            account_flag,
            token_file,
            env_account_id: keep_nonblank(env_account_id),
            env_api_token: keep_nonblank(env_api_token),
        }
    }
}

/// Why a mode or an account could not be chosen.
#[derive(Debug, Clone, PartialEq, Eq)]
pub enum TargetError {
    /// `--temporary` was combined with `--own` or `--account`.
    TemporaryConflict,
    /// The token file could not be read.
    TokenFileUnreadable { path: String, reason: String },
    /// The token file holds only whitespace.
    TokenFileEmpty { path: String },
    /// Own-account mode was requested but no token was found.
    NoToken,
    /// The requested account is not among those the token can see.
    AccountNotVisible { id: String, visible: String },
    /// The token can see no account at all.
    NoAccounts,
    /// The token can see several accounts and none was requested.
    SeveralAccounts { count: usize, visible: String },
}

/// The mathematical value of a [`TargetError`].
pub enum TargetErrorView {
    TemporaryConflict,
    TokenFileUnreadable { path: Seq<char>, reason: Seq<char> },
    TokenFileEmpty { path: Seq<char> },
    NoToken,
    AccountNotVisible { id: Seq<char>, visible: Seq<char> },
    NoAccounts,
    SeveralAccounts { count: nat, visible: Seq<char> },
}

impl View for TargetError {
    type V = TargetErrorView;

    open spec fn view(&self) -> TargetErrorView {
        match self {
            TargetError::TemporaryConflict => TargetErrorView::TemporaryConflict,
            TargetError::TokenFileUnreadable { path, reason } => TargetErrorView::TokenFileUnreadable {
                path: path@,
                reason: reason@,
            },
            TargetError::TokenFileEmpty { path } => TargetErrorView::TokenFileEmpty { path: path@ },
            TargetError::NoToken => TargetErrorView::NoToken,
            TargetError::AccountNotVisible { id, visible } => TargetErrorView::AccountNotVisible {
                id: id@,
                visible: visible@,
            },
            TargetError::NoAccounts => TargetErrorView::NoAccounts,
            TargetError::SeveralAccounts { count, visible } => TargetErrorView::SeveralAccounts {
                count: *count as nat,
                visible: visible@,
            },
        }
    }
}

/// The text shown for an error.
pub open spec fn target_error_message(e: TargetErrorView) -> Seq<char> {
    match e {
        TargetErrorView::TemporaryConflict =>
            "--temporary cannot be combined with --own or --account"@,
        TargetErrorView::TokenFileUnreadable { path, reason } =>
            "reading --token-file "@ + path + ": "@ + reason,
        TargetErrorView::TokenFileEmpty { path } => "--token-file "@ + path + " is empty"@,
        TargetErrorView::NoToken =>
            "own-account mode was requested (--own / --account / CLOUDFLARE_ACCOUNT_ID) but no API token was found. Set CLOUDFLARE_API_TOKEN or pass --token-file. Not falling back to a temporary account."@,
        TargetErrorView::AccountNotVisible { id, visible } =>
            "the token has no access to account "@ + id + ". It can see: "@ + visible,
        TargetErrorView::NoAccounts =>
            "the token can see no accounts \u{2014} check its Account Resources scope"@,
        TargetErrorView::SeveralAccounts { count, visible } =>
            "the token can see "@ + decimal(count) + " accounts; pick one with --account <id> (or CLOUDFLARE_ACCOUNT_ID): "@ + visible,
    }
}

impl TargetError {
    /// The text shown for this error.
    pub fn message(&self) -> (m: String)
        ensures
            m@ == target_error_message(self@),
    {
        let mut m = String::new();
        match self {
            TargetError::TemporaryConflict => {
                push_str(&mut m, "--temporary cannot be combined with --own or --account");
            },
            TargetError::TokenFileUnreadable { path, reason } => {
                push_str(&mut m, "reading --token-file ");
                push_str(&mut m, path.as_str());
                push_str(&mut m, ": ");
                push_str(&mut m, reason.as_str());
            },
            TargetError::TokenFileEmpty { path } => {
                push_str(&mut m, "--token-file ");
                push_str(&mut m, path.as_str());
                push_str(&mut m, " is empty");
            },
            TargetError::NoToken => {
                push_str(
                    &mut m,
                    "own-account mode was requested (--own / --account / CLOUDFLARE_ACCOUNT_ID) but no API token was found. Set CLOUDFLARE_API_TOKEN or pass --token-file. Not falling back to a temporary account.",
                );
            },
            TargetError::AccountNotVisible { id, visible } => {
                push_str(&mut m, "the token has no access to account ");
                push_str(&mut m, id.as_str());
                push_str(&mut m, ". It can see: ");
                push_str(&mut m, visible.as_str());
            },
            TargetError::NoAccounts => {
                push_str(&mut m, "the token can see no accounts \u{2014} check its Account Resources scope");
            },
            TargetError::SeveralAccounts { count, visible } => {
                push_str(&mut m, "the token can see ");
                let n = decimal_string(*count as u128);
                push_str(&mut m, n.as_str());
                push_str(
                    &mut m,
                    " accounts; pick one with --account <id> (or CLOUDFLARE_ACCOUNT_ID): ",
                );
                push_str(&mut m, visible.as_str());
            },
        }
        m
    }
}

/// Whether the inputs ask for the user's own account.
pub open spec fn wants_own(i: InputsView) -> bool {
    i.own_flag || i.account_flag is Some || i.env_account_id is Some
}

/// The account id to deploy into: the flag before the environment, trimmed,
/// and only when not blank.
pub open spec fn chosen_account_id(i: InputsView) -> Option<Seq<char>> {
    let raw = if i.account_flag is Some { i.account_flag } else { i.env_account_id };
    match raw {
        Some(a) => if trim(a).len() > 0 { Some(trim(a)) } else { None },
        None => None,
    }
}

/// Whether resolving `i` reads the token file.
pub open spec fn reads_token_file(i: InputsView) -> bool {
    !i.temporary_flag && wants_own(i) && i.token_file is Some
}

/// The mode chosen for `i`, given what reading the token file gave (when it
/// was read).
pub open spec fn resolve_spec(i: InputsView, file: Option<Result<Seq<char>, Seq<char>>>) -> Result<
    ModeView,
    TargetErrorView,
> {
    if i.temporary_flag {
        if i.own_flag || i.account_flag is Some {
            Err(TargetErrorView::TemporaryConflict)
        } else {
            Ok(ModeView::Temporary)
        }
    } else if !wants_own(i) {
        Ok(ModeView::Temporary)
    } else if i.token_file is Some {
        let path = i.token_file.unwrap();
        match file {
            Some(Ok(raw)) => if trim(raw).len() == 0 {
                Err(TargetErrorView::TokenFileEmpty { path })
            } else {
                Ok(
                    ModeView::Own {
                        account_id: chosen_account_id(i),
                        api_token: trim(raw),
                        token_source: "--token-file"@,
                    },
                )
            },
            Some(Err(reason)) => Err(TargetErrorView::TokenFileUnreadable { path, reason }),
            None => Err(TargetErrorView::TokenFileUnreadable { path, reason: Seq::empty() }),
        }
    } else if i.env_api_token is Some {
        Ok(
            ModeView::Own {
                account_id: chosen_account_id(i),
                api_token: i.env_api_token.unwrap(),
                token_source: "CLOUDFLARE_API_TOKEN"@,
            },
        )
    } else {
        Err(TargetErrorView::NoToken)
    }
}

/// The mathematical value of a decision.
pub open spec fn decision_view(r: Result<Mode, TargetError>) -> Result<ModeView, TargetErrorView> {
    match r {
        Ok(m) => Ok(m@),
        Err(e) => Err(e@),
    }
}

/// The mathematical value of what reading a file gave.
pub open spec fn read_view(r: Result<String, String>) -> Result<Seq<char>, Seq<char>> {
    match r {
        Ok(s) => Ok(s@),
        Err(e) => Err(e@),
    }
}

fn own_account_id(inputs: &Inputs) -> (r: Option<String>)
    ensures
        opt_view(r) == chosen_account_id(inputs@),
{
    let raw = match &inputs.account_flag {
        Some(a) => Some(a),
        None => match &inputs.env_account_id {
            Some(a) => Some(a),
            None => None,
        },
    };
    match raw {
        Some(a) => {
            let t = trim_str(a.as_str());
            if t.as_str().is_empty() {
                None
            } else {
                Some(t)
            }
        },
        None => None,
    }
}

/// Decides the mode. The token file, when one is named and own-account mode
/// is requested, is read through `read_token_file`, which gives the file's
/// contents or why it could not be read.
pub fn resolve(inputs: &Inputs, read_token_file: impl Fn(&str) -> Result<String, String>) -> (r:
    Result<Mode, TargetError>)
    requires
        forall|p: &str| call_requires(read_token_file, (p,)),
    ensures
        !reads_token_file(inputs@) ==> decision_view(r) == resolve_spec(inputs@, None),
        reads_token_file(inputs@) ==> exists|p: &str, got: Result<String, String>|
            p@ == inputs@.token_file.unwrap() && call_ensures(read_token_file, (p,), got)
                && decision_view(r) == resolve_spec(inputs@, Some(read_view(got))),
{
    if inputs.temporary_flag {
        if inputs.own_flag || inputs.account_flag.is_some() {
            return Err(TargetError::TemporaryConflict);
        }
        return Ok(Mode::Temporary);
    }
    let wants = inputs.own_flag || inputs.account_flag.is_some() || inputs.env_account_id.is_some();
    if !wants {
        return Ok(Mode::Temporary);
    }
    match &inputs.token_file {
        Some(path) => {
            let p = path.as_str();
            let got = read_token_file(p);
            match got {
                Ok(raw) => {
                    let tok = trim_str(raw.as_str());
                    if tok.as_str().is_empty() {
                        return Err(TargetError::TokenFileEmpty { path: path.clone() });
                    }
                    let account_id = own_account_id(inputs);
                    Ok(Mode::Own { account_id, api_token: tok, token_source: "--token-file" })
                },
                Err(reason) => Err(
                    TargetError::TokenFileUnreadable { path: path.clone(), reason: reason.clone() },
                ),
            }
        },
        None => match &inputs.env_api_token {
            Some(tok) => {
                let account_id = own_account_id(inputs);
                Ok(
                    Mode::Own {
                        account_id,
                        api_token: tok.clone(),
                        token_source: "CLOUDFLARE_API_TOKEN",
                    },
                )
            },
            None => Err(TargetError::NoToken),
        },
    }
}

/// The mathematical value of a list of `(id, name)` accounts.
pub open spec fn accounts_view(v: Seq<(String, String)>) -> Seq<(Seq<char>, Seq<char>)> {
    v.map_values(|a: (String, String)| (a.0@, a.1@))
}

/// `id (name)`.
pub open spec fn account_label(a: (Seq<char>, Seq<char>)) -> Seq<char> {
    a.0 + " ("@ + a.1 + ")"@
}

/// The labels of `v` joined by `, `.
pub open spec fn joined_labels(v: Seq<(Seq<char>, Seq<char>)>) -> Seq<char>
    decreases v.len(),
{
    if v.len() == 0 {
        Seq::empty()
    } else if v.len() == 1 {
        account_label(v[0])
    } else {
        joined_labels(v.drop_last()) + ", "@ + account_label(v.last())
    }
}

/// How a list of accounts is shown in messages.
pub open spec fn describe_spec(v: Seq<(Seq<char>, Seq<char>)>) -> Seq<char> {
    if v.len() == 0 {
        "(none)"@
    } else {
        joined_labels(v)
    }
}

/// Shows the visible accounts as `id (name), id (name), ...`, or `(none)`.
pub fn describe(visible: &[(String, String)]) -> (s: String)
    ensures
        s@ == describe_spec(accounts_view(visible@)),
{
    let ghost acc = accounts_view(visible@);
    let mut s = String::new();
    if visible.len() == 0 {
        push_str(&mut s, "(none)");
        return s;
    }
    let n = visible.len();
    for i in 0..n
        invariant
            n == visible@.len(),
            acc == accounts_view(visible@),
            n > 0,
            i == 0 ==> s@ == Seq::<char>::empty(),
            i > 0 ==> s@ == joined_labels(acc.take(i as int)),
    {
        if i > 0 {
            push_str(&mut s, ", ");
        }
        push_str(&mut s, visible[i].0.as_str());
        push_str(&mut s, " (");
        push_str(&mut s, visible[i].1.as_str());
        push_str(&mut s, ")");
        assert(acc.take(i + 1).drop_last() =~= acc.take(i as int));
        assert(acc.take(i + 1).last() == acc[i as int]);
        if i == 0 {
            assert(acc.take(1) =~= seq![acc[0]]);
        }
    }
    assert(acc.take(n as int) =~= acc);
    s
}

/// The first position of an account with id `id`, if any.
pub open spec fn first_with_id(v: Seq<(Seq<char>, Seq<char>)>, id: Seq<char>) -> Option<int> {
    if exists|i: int| 0 <= i < v.len() && v[i].0 == id {
        Some(choose|i: int| 0 <= i < v.len() && v[i].0 == id && forall|j: int| 0 <= j < i ==> v[j].0 != id)
    } else {
        None
    }
}

proof fn lemma_first_with_id(v: Seq<(Seq<char>, Seq<char>)>, id: Seq<char>, i: int)
    requires
        0 <= i < v.len(),
        v[i].0 == id,
        forall|j: int| 0 <= j < i ==> v[j].0 != id,
    ensures
        first_with_id(v, id) == Some(i),
{
    let w = choose|k: int| 0 <= k < v.len() && v[k].0 == id && forall|j: int| 0 <= j < k ==> v[j].0 != id;
    assert(0 <= w < v.len() && v[w].0 == id && forall|j: int| 0 <= j < w ==> v[j].0 != id);
    if w < i {
    } else if w > i {
        assert(v[i].0 != id);
    }
}

/// The account picked from `visible` for an optional requested id.
pub open spec fn choose_account_spec(v: Seq<(Seq<char>, Seq<char>)>, requested: Option<Seq<char>>) -> Result<
    (Seq<char>, Seq<char>),
    TargetErrorView,
> {
    match requested {
        Some(id) => match first_with_id(v, id) {
            Some(i) => Ok(v[i]),
            None => Err(TargetErrorView::AccountNotVisible { id, visible: describe_spec(v) }),
        },
        None => if v.len() == 0 {
            Err(TargetErrorView::NoAccounts)
        } else if v.len() == 1 {
            Ok(v[0])
        } else {
            Err(TargetErrorView::SeveralAccounts { count: v.len(), visible: describe_spec(v) })
        },
    }
}

/// The mathematical value of a chosen account.
pub open spec fn chosen_view(r: Result<(String, String), TargetError>) -> Result<
    (Seq<char>, Seq<char>),
    TargetErrorView,
> {
    match r {
        Ok(a) => Ok((a.0@, a.1@)),
        Err(e) => Err(e@),
    }
}

/// Given the accounts a token can see and an optional requested id, picks the
/// one to deploy into. Exactly one visible account is auto-selected; several
/// need an explicit choice; a requested id must be among the visible ones.
pub fn choose_account(visible: &[(String, String)], requested: Option<&str>) -> (r: Result<
    (String, String),
    TargetError,
>)
    ensures
        chosen_view(r) == choose_account_spec(
            accounts_view(visible@),
            match requested {
                Some(id) => Some(id@),
                None => None,
            },
        ),
{
    let ghost acc = accounts_view(visible@);
    let n = visible.len();
    match requested {
        Some(id) => {
            for i in 0..n
                invariant
                    n == visible@.len(),
                    requested == Some(id),
                    acc == accounts_view(visible@),
                    forall|j: int| 0 <= j < i ==> acc[j].0 != id@,
            {
                if str_eq(visible[i].0.as_str(), id) {
                    assert(acc[i as int].0 == id@);
                    assert(acc[i as int] == (visible@[i as int].0@, visible@[i as int].1@));
                    assert(0 <= i < acc.len() && acc[i as int].0 == id@ && forall|j: int|
                        0 <= j < i ==> acc[j].0 != id@);
                    proof {
                        lemma_first_with_id(acc, id@, i as int);
                    }
                    return Ok((visible[i].0.clone(), visible[i].1.clone()));
                }
            }
            Err(TargetError::AccountNotVisible { id: id.to_owned(), visible: describe(visible) })
        },
        None => {
            if n == 0 {
                Err(TargetError::NoAccounts)
            } else if n == 1 {
                Ok((visible[0].0.clone(), visible[0].1.clone()))
            } else {
                Err(TargetError::SeveralAccounts { count: n, visible: describe(visible) })
            }
        },
    }
}

/// The characters of each string.
pub open spec fn strings_view(v: Seq<String>) -> Seq<Seq<char>> {
    v.map_values(|s: String| s@)
}

/// Whether a deploy may replace the Worker of that name: always when none
/// exists (`existing_tags` is `None`), with `force`, or when the Worker
/// carries `tag`.
pub open spec fn may_overwrite_spec(existing: Option<Seq<Seq<char>>>, force: bool, tag: Seq<char>) -> bool {
    match existing {
        None => true,
        Some(tags) => force || tags.contains(tag),
    }
}

/// Own-account overwrite rule: a Worker that already exists may only be
/// replaced if cfdrop created it (carries the tag) or the user passed
/// `--force`. `existing_tags` is `None` when no Worker of that name exists.
pub fn may_overwrite(existing_tags: Option<&[String]>, force: bool, tag: &str) -> (r: bool)
    ensures
        r == may_overwrite_spec(
            match existing_tags {
                Some(t) => Some(strings_view(t@)),
                None => None,
            },
            force,
            tag@,
        ),
{
    match existing_tags {
        None => true,
        Some(tags) => {
            if force {
                return true;
            }
            let ghost tv = strings_view(tags@);
            let n = tags.len();
            for i in 0..n
                invariant
                    n == tags@.len(),
                    existing_tags == Some(tags),
                    tv == strings_view(tags@),
                    forall|j: int| 0 <= j < i ==> tv[j] != tag@,
            {
                if str_eq(tags[i].as_str(), tag) {
                    assert(tv[i as int] == tag@);
                    assert(tv.contains(tag@));
                    return true;
                }
            }
            assert(!tv.contains(tag@));
            false
        },
    }
}

/// A Worker that exists is only ever replaced or deleted without `--force`
/// when it carries the tag; one that does not exist may always be created.
pub proof fn lemma_never_clobbers(existing: Option<Seq<Seq<char>>>, tag: Seq<char>)
    ensures
        existing is None ==> may_overwrite_spec(existing, false, tag),
        existing matches Some(tags) ==> (may_overwrite_spec(existing, false, tag) <==> tags.contains(tag)),
        may_overwrite_spec(existing, true, tag),
{
}

/// In own-account mode the account id never depends on where the token came
/// from: it is `--account` (else `CLOUDFLARE_ACCOUNT_ID`) trimmed, when that
/// text is not blank, and none otherwise, so that the account is inferred.
pub proof fn lemma_own_account_id(i: InputsView, file: Option<Result<Seq<char>, Seq<char>>>)
    ensures
        resolve_spec(i, file) matches Ok(ModeView::Own { account_id, .. }) ==> account_id == {
            let raw = if i.account_flag is Some {
                i.account_flag
            } else {
                i.env_account_id
            };
            if raw is Some && trim(raw.unwrap()).len() > 0 {
                Some(trim(raw.unwrap()))
            } else {
                None::<Seq<char>>
            }
        },
{
}

/// A bare API token never switches to own-account mode: without `--own`,
/// `--account` or `CLOUDFLARE_ACCOUNT_ID`, the mode is temporary whatever the
/// environment's token or the token file hold.
pub proof fn lemma_token_alone_stays_temporary(i: InputsView, file: Option<Result<Seq<char>, Seq<char>>>)
    requires
        !i.own_flag,
        i.account_flag is None,
        i.env_account_id is None,
    ensures
        resolve_spec(i, file) == Ok::<ModeView, TargetErrorView>(ModeView::Temporary),
{
}

/// Once own-account mode is requested (and `--temporary` is not given), the
/// decision is own-account mode or an error, never a temporary account.
pub proof fn lemma_own_request_never_falls_back(i: InputsView, file: Option<Result<Seq<char>, Seq<char>>>)
    requires
        !i.temporary_flag,
        wants_own(i),
    ensures
        !(resolve_spec(i, file) matches Ok(ModeView::Temporary)),
{
}

/// `--temporary` forces a temporary account even when
/// `CLOUDFLARE_ACCOUNT_ID` is set, unless combined with `--own` or
/// `--account`, which is refused.
pub proof fn lemma_temporary_flag_wins(i: InputsView, file: Option<Result<Seq<char>, Seq<char>>>)
    requires
        i.temporary_flag,
    ensures
        !i.own_flag && i.account_flag is None ==> resolve_spec(i, file) == Ok::<ModeView, TargetErrorView>(
            ModeView::Temporary,
        ),
        i.own_flag || i.account_flag is Some ==> resolve_spec(i, file) == Err::<ModeView, TargetErrorView>(
            TargetErrorView::TemporaryConflict,
        ),
{
}

/// The token only ever comes from the token file (trimmed, and then ahead of
/// the environment) or from `CLOUDFLARE_API_TOKEN`.
pub proof fn lemma_token_sources(i: InputsView, file: Option<Result<Seq<char>, Seq<char>>>)
    ensures
        resolve_spec(i, file) matches Ok(ModeView::Own { api_token, token_source, .. }) ==> {
            ||| (i.token_file is Some && (file matches Some(Ok(raw)) && api_token == trim(raw)) && api_token.len() > 0
                && token_source == "--token-file"@)
            ||| (i.token_file is None && i.env_api_token == Some(api_token) && token_source
                == "CLOUDFLARE_API_TOKEN"@)
        },
{
}

/// A chosen account is one the token can see; a requested id is the id of
/// the account chosen.
pub proof fn lemma_chosen_account_is_visible(v: Seq<(Seq<char>, Seq<char>)>, requested: Option<Seq<char>>)
    ensures
        choose_account_spec(v, requested) matches Ok(a) ==> v.contains(a),
        choose_account_spec(v, requested) matches Ok(a) ==> (requested is Some ==> a.0 == requested.unwrap()),
        requested is None && v.len() == 1 ==> choose_account_spec(v, requested) == Ok::<
            (Seq<char>, Seq<char>),
            TargetErrorView,
        >(v[0]),
{
    match requested {
        Some(id) => {
            if exists|k: int| 0 <= k < v.len() && v[k].0 == id {
                let w = choose|k: int| 0 <= k < v.len() && v[k].0 == id && forall|j: int| 0 <= j < k ==> v[j].0 != id;
                let k0 = choose|k: int| 0 <= k < v.len() && v[k].0 == id;
                lemma_first_exists(v, id, k0);
                assert(0 <= w < v.len() && v[w].0 == id);
            }
        },
        None => {},
    }
}

proof fn lemma_first_exists(v: Seq<(Seq<char>, Seq<char>)>, id: Seq<char>, k: int)
    requires
        0 <= k < v.len(),
        v[k].0 == id,
    ensures
        exists|w: int| 0 <= w < v.len() && v[w].0 == id && forall|j: int| 0 <= j < w ==> v[j].0 != id,
    decreases k,
{
    if exists|j: int| 0 <= j < k && v[j].0 == id {
        let j = choose|j: int| 0 <= j < k && v[j].0 == id;
        lemma_first_exists(v, id, j);
    } else {
        assert(forall|j: int| 0 <= j < k ==> v[j].0 != id);
    }
}

} // verus!
