//! `unisonfs provision`: making an account, or recovering its key, with a code
//! from an email.
//!
//! The steps are: ask for the account or for a recovery code, have the code, and
//! verify it. What each outcome leads to is decided here; asking, sending and
//! saving are not.

use super::login::{verify_outcome, Verified};
use crate::api::dto::{ProvisionResp, VerifyResp};
use crate::api::error::{api_error_text, ApiError};
use crate::config::credentials::{Credentials, CredentialsView};
use crate::text::{copy_text, opt_view, texts, trim, trimmed};
use vstd::prelude::*;

verus! {

/// How far the command is.
#[derive(Debug, Clone, Copy, PartialEq, Eq, Structural)]
pub enum ProvisionStage {
    /// Nothing was done yet.
    Begin,
    /// The email address is being asked for.
    Email,
    /// A recovery code is being requested.
    Recovery,
    /// The account is being requested.
    Account,
    /// The key of the new account is being saved.
    SaveNew,
    /// The code is being asked for.
    Code,
    /// The code is being verified.
    Verify,
    /// The key of the verified account is being saved.
    SaveVerified,
    Ended,
}

/// A run of the command.
#[derive(Debug)]
pub struct ProvisionState {
    pub stage: ProvisionStage,
    /// A recovery code is wanted for an account that exists.
    pub request_key: bool,
    pub email: Option<String>,
    pub code: Option<String>,
}

/// A [`ProvisionState`] with its texts as character sequences.
pub struct ProvisionView {
    pub stage: ProvisionStage,
    pub request_key: bool,
    pub email: Option<Seq<char>>,
    pub code: Option<Seq<char>>,
}

impl View for ProvisionState {
    type V = ProvisionView;

    open spec fn view(&self) -> ProvisionView {
        ProvisionView {
            stage: self.stage,
            request_key: self.request_key,
            email: opt_view(self.email),
            code: opt_view(self.code),
        }
    }
}

/// What became of the last action.
#[derive(Debug)]
pub enum ProvisionEvent {
    /// The command starts.
    Begun,
    /// What was typed in; nothing where there is no terminal.
    Typed(Option<String>),
    /// The reply to a request for a recovery code.
    KeyRequested(Result<(), ApiError>),
    /// The reply to a request for an account.
    Provisioned(Result<ProvisionResp, ApiError>),
    /// The reply to a verification.
    Verified(Result<VerifyResp, ApiError>),
    /// The credentials are saved.
    Saved,
}

/// What is done next.
#[derive(Debug)]
pub enum ProvisionWork {
    AskEmail,
    RequestKey(String),
    Provision(String),
    AskCode,
    /// Verifies an email address with a code.
    Verify(String, String),
    /// Saves the credentials for all mounts.
    Save(Credentials),
    /// The command ends well.
    Done,
    /// The command ends with this error.
    Fail(String),
}

/// A [`ProvisionWork`] with its texts as character sequences.
pub enum ProvisionWorkView {
    AskEmail,
    RequestKey(Seq<char>),
    Provision(Seq<char>),
    AskCode,
    Verify(Seq<char>, Seq<char>),
    Save(CredentialsView),
    Done,
    Fail(Seq<char>),
}

impl View for ProvisionWork {
    type V = ProvisionWorkView;

    open spec fn view(&self) -> ProvisionWorkView {
        match *self {
            ProvisionWork::AskEmail => ProvisionWorkView::AskEmail,
            ProvisionWork::RequestKey(email) => ProvisionWorkView::RequestKey(email@),
            ProvisionWork::Provision(email) => ProvisionWorkView::Provision(email@),
            ProvisionWork::AskCode => ProvisionWorkView::AskCode,
            ProvisionWork::Verify(email, code) => ProvisionWorkView::Verify(email@, code@),
            ProvisionWork::Save(c) => ProvisionWorkView::Save(c@),
            ProvisionWork::Done => ProvisionWorkView::Done,
            ProvisionWork::Fail(text) => ProvisionWorkView::Fail(text@),
        }
    }
}

/// What is said, line by line, and what is done then.
#[derive(Debug)]
pub struct ProvisionAction {
    pub says: Vec<String>,
    pub work: ProvisionWork,
}

/// A [`ProvisionAction`] with its texts as character sequences.
#[verifier::ext_equal]
pub struct ProvisionActionView {
    pub says: Seq<Seq<char>>,
    pub work: ProvisionWorkView,
}

impl View for ProvisionAction {
    type V = ProvisionActionView;

    open spec fn view(&self) -> ProvisionActionView {
        ProvisionActionView { says: texts(self.says@), work: self.work@ }
    }
}

// ── What follows what ───────────────────────────────────────────────────────

/// The event is one that the stage waits for.
pub open spec fn waits_for(stage: ProvisionStage, event: ProvisionEvent) -> bool {
    match stage {
        ProvisionStage::Begin => event is Begun,
        ProvisionStage::Email => event is Typed,
        ProvisionStage::Recovery => event is KeyRequested,
        ProvisionStage::Account => event is Provisioned,
        ProvisionStage::SaveNew => event is Saved,
        ProvisionStage::Code => event is Typed,
        ProvisionStage::Verify => event is Verified,
        ProvisionStage::SaveVerified => event is Saved,
        ProvisionStage::Ended => false,
    }
}

/// A run that has come past asking for the email address has one.
pub open spec fn has_email(v: ProvisionView) -> bool {
    v.email is Some || v.stage is Begin || v.stage is Email || v.stage is Ended
}

/// The credentials that a key stands for.
pub open spec fn key_of(token: Seq<char>) -> CredentialsView {
    CredentialsView { token, api_url: None }
}

/// The run at another stage.
pub open spec fn at(v: ProvisionView, stage: ProvisionStage) -> ProvisionView {
    ProvisionView { stage, ..v }
}

/// The action that says these lines and does this work.
pub open spec fn action(says: Seq<Seq<char>>, work: ProvisionWorkView) -> ProvisionActionView {
    ProvisionActionView { says, work }
}

/// The command ends well.
pub open spec fn done(v: ProvisionView, says: Seq<Seq<char>>) -> (
    ProvisionView,
    ProvisionActionView,
) {
    (at(v, ProvisionStage::Ended), action(says, ProvisionWorkView::Done))
}

/// The command ends with an error.
pub open spec fn failed(v: ProvisionView, text: Seq<char>) -> (ProvisionView, ProvisionActionView) {
    (at(v, ProvisionStage::Ended), action(Seq::empty(), ProvisionWorkView::Fail(text)))
}

/// The email address is known: the account or a recovery code is requested.
pub open spec fn email_known(v: ProvisionView, email: Seq<char>) -> (
    ProvisionView,
    ProvisionActionView,
) {
    let v1 = ProvisionView { email: Some(email), ..v };
    if v.request_key {
        (
            at(v1, ProvisionStage::Recovery),
            action(
                seq!["Requesting recovery key for "@ + email + "..."@],
                ProvisionWorkView::RequestKey(email),
            ),
        )
    } else {
        (
            at(v1, ProvisionStage::Account),
            action(
                seq!["Provisioning new Unison account for "@ + email + "..."@],
                ProvisionWorkView::Provision(email),
            ),
        )
    }
}

/// The code is known: it is verified, or the command ends where it is empty.
pub open spec fn code_known(v: ProvisionView, code: Seq<char>, says: Seq<Seq<char>>) -> (
    ProvisionView,
    ProvisionActionView,
) {
    let email = v.email->0;
    if code.len() == 0 {
        done(
            v,
            says.push(
                "No code entered. Run `unisonfs provision --email "@ + email
                    + " --code <OTP>` to verify later."@,
            ),
        )
    } else {
        (
            at(v, ProvisionStage::Verify),
            action(says.push("Verifying OTP..."@), ProvisionWorkView::Verify(email, code)),
        )
    }
}

/// The code is due: it was given, or is asked for.
pub open spec fn code_due(v: ProvisionView, said: Seq<char>) -> (
    ProvisionView,
    ProvisionActionView,
) {
    match v.code {
        Some(code) => code_known(v, code, seq![said]),
        None => (at(v, ProvisionStage::Code), action(seq![said], ProvisionWorkView::AskCode)),
    }
}

/// What follows an event.
pub open spec fn provision_after(v: ProvisionView, event: ProvisionEvent) -> (
    ProvisionView,
    ProvisionActionView,
) {
    match event {
        ProvisionEvent::Begun => match v.email {
            Some(email) => email_known(v, email),
            None => (
                at(v, ProvisionStage::Email),
                action(Seq::empty(), ProvisionWorkView::AskEmail),
            ),
        },
        ProvisionEvent::Typed(line) => if v.stage is Email {
            match line {
                Some(line) => email_known(v, trimmed(line@)),
                None => failed(v, "No email provided. Pass --email."@),
            }
        } else {
            match line {
                Some(line) => code_known(v, trimmed(line@), Seq::empty()),
                None => done(v, seq!["Pass --code <OTP> to complete verification."@]),
            }
        },
        ProvisionEvent::KeyRequested(reply) => match reply {
            Ok(_) => code_due(v, "Check your email for the OTP code."@),
            Err(e) => failed(v, api_error_text(e@)),
        },
        ProvisionEvent::Provisioned(reply) => match reply {
            Ok(resp) => (
                at(v, ProvisionStage::SaveNew),
                action(
                    seq![
                        "Provisioned (status: "@ + resp.status@
                            + "). Check your email for the OTP verification code."@,
                    ],
                    ProvisionWorkView::Save(key_of(resp.api_key@)),
                ),
            ),
            Err(e) => if e@ is Conflict {
                done(
                    v,
                    seq![
                        "Account already exists for "@ + v.email->0
                            + ". Use --request-key to recover your token."@,
                    ],
                )
            } else {
                failed(v, api_error_text(e@))
            },
        },
        ProvisionEvent::Verified(reply) => match reply {
            Ok(resp) => if !resp.verified {
                failed(v, "Verification failed — check your OTP code."@)
            } else {
                match opt_view(resp.api_key) {
                    Some(key) => (
                        at(v, ProvisionStage::SaveVerified),
                        action(Seq::empty(), ProvisionWorkView::Save(key_of(key))),
                    ),
                    None => done(v, seq!["Verified. Existing token is now durable."@]),
                }
            },
            Err(e) => failed(v, api_error_text(e@)),
        },
        ProvisionEvent::Saved => if v.stage is SaveNew {
            code_due(v, "Unverified token saved (expires in 72h if not verified)."@)
        } else {
            done(v, seq!["Verified. New token saved."@])
        },
    }
}

// ── The steps ───────────────────────────────────────────────────────────────

impl ProvisionState {
    /// A run that has not begun, with what the command was called with.
    pub fn new(email: Option<String>, request_key: bool, code: Option<String>) -> (r: Self)
        ensures
            has_email(r@),
            r@ == (ProvisionView {
                stage: ProvisionStage::Begin,
                request_key,
                email: opt_view(email),
                code: opt_view(code),
            }),
    {
        ProvisionState { stage: ProvisionStage::Begin, request_key, email, code }
    }

    /// Whether the event is one that the run waits for.
    pub fn waits_for(&self, event: &ProvisionEvent) -> (r: bool)
        ensures
            r == waits_for(self.stage, *event),
    {
        match self.stage {
            ProvisionStage::Begin => matches!(event, ProvisionEvent::Begun),
            ProvisionStage::Email | ProvisionStage::Code => matches!(
                event,
                ProvisionEvent::Typed(_)
            ),
            ProvisionStage::Recovery => matches!(event, ProvisionEvent::KeyRequested(_)),
            ProvisionStage::Account => matches!(event, ProvisionEvent::Provisioned(_)),
            ProvisionStage::Verify => matches!(event, ProvisionEvent::Verified(_)),
            ProvisionStage::SaveNew | ProvisionStage::SaveVerified => matches!(
                event,
                ProvisionEvent::Saved
            ),
            ProvisionStage::Ended => false,
        }
    }

    fn end(self, says: Vec<String>, work: ProvisionWork) -> (r: (ProvisionState, ProvisionAction))
        ensures
            r.0@ == at(self@, ProvisionStage::Ended),
            r.1@ == action(texts(says@), work@),
    {
        (ProvisionState { stage: ProvisionStage::Ended, ..self }, ProvisionAction { says, work })
    }

    fn fail(self, text: String) -> (r: (ProvisionState, ProvisionAction))
        ensures
            (r.0@, r.1@) == failed(self@, text@),
    {
        let says: Vec<String> = Vec::new();
        assert(texts(says@) =~= Seq::empty());
        self.end(says, ProvisionWork::Fail(text))
    }

    fn finish(self, said: String) -> (r: (ProvisionState, ProvisionAction))
        ensures
            (r.0@, r.1@) == done(self@, seq![said@]),
    {
        self.end(one_line(said), ProvisionWork::Done)
    }

    fn with_email(self, email: String) -> (r: (ProvisionState, ProvisionAction))
        ensures
            (r.0@, r.1@) == email_known(self@, email@),
    {
        let asked = copy_text(email.as_str());
        let (stage, said, work) = if self.request_key {
            (
                ProvisionStage::Recovery,
                copy_text("Requesting recovery key for "),
                ProvisionWork::RequestKey(asked),
            )
        } else {
            (
                ProvisionStage::Account,
                copy_text("Provisioning new Unison account for "),
                ProvisionWork::Provision(asked),
            )
        };
        let says = one_line(said.concat(email.as_str()).concat("..."));
        (
            ProvisionState { stage, email: Some(email), ..self },
            ProvisionAction { says, work },
        )
    }

    fn with_code(self, code: String, says: Vec<String>) -> (r: (ProvisionState, ProvisionAction))
        requires
            self.email is Some,
        ensures
            (r.0@, r.1@) == code_known(self@, code@, texts(says@)),
    {
        let mut lines = says;
        let ghost before = texts(lines@);
        let email = match &self.email {
            Some(e) => copy_text(e.as_str()),
            None => String::new(),
        };
        if code.as_str().is_empty() {
            let line = copy_text("No code entered. Run `unisonfs provision --email ").concat(
                email.as_str(),
            ).concat(" --code <OTP>` to verify later.");
            lines.push(line);
            assert(texts(lines@) =~= before.push(line@));
            self.end(lines, ProvisionWork::Done)
        } else {
            let line = copy_text("Verifying OTP...");
            lines.push(line);
            assert(texts(lines@) =~= before.push(line@));
            (
                ProvisionState { stage: ProvisionStage::Verify, ..self },
                ProvisionAction { says: lines, work: ProvisionWork::Verify(email, code) },
            )
        }
    }

    fn due(self, said: String) -> (r: (ProvisionState, ProvisionAction))
        requires
            self.email is Some,
        ensures
            (r.0@, r.1@) == code_due(self@, said@),
    {
        match &self.code {
            Some(code) => {
                let code = copy_text(code.as_str());
                self.with_code(code, one_line(said))
            },
            None => (
                ProvisionState { stage: ProvisionStage::Code, ..self },
                ProvisionAction { says: one_line(said), work: ProvisionWork::AskCode },
            ),
        }
    }
}

fn one_line(said: String) -> (r: Vec<String>)
    ensures
        texts(r@) == seq![said@],
{
    let mut says: Vec<String> = Vec::new();
    says.push(said);
    assert(texts(says@) =~= seq![said@]);
    says
}

/// Decides what follows an event of the command.
pub fn provision_step(state: ProvisionState, event: ProvisionEvent) -> (r: (
    ProvisionState,
    ProvisionAction,
))
    requires
        waits_for(state.stage, event),
        has_email(state@),
    ensures
        (r.0@, r.1@) == provision_after(state@, event),
        has_email(r.0@),
{
    match event {
        ProvisionEvent::Begun => match &state.email {
            Some(email) => {
                let email = copy_text(email.as_str());
                state.with_email(email)
            },
            None => {
                let says: Vec<String> = Vec::new();
                assert(texts(says@) =~= Seq::empty());
                (
                    ProvisionState { stage: ProvisionStage::Email, ..state },
                    ProvisionAction { says, work: ProvisionWork::AskEmail },
                )
            },
        },
        ProvisionEvent::Typed(line) => if matches!(state.stage, ProvisionStage::Email) {
            match line {
                Some(line) => {
                    let email = trim(line.as_str());
                    state.with_email(email)
                },
                None => state.fail(copy_text("No email provided. Pass --email.")),
            }
        } else {
            match line {
                Some(line) => {
                    let code = trim(line.as_str());
                    let says: Vec<String> = Vec::new();
                    assert(texts(says@) =~= Seq::empty());
                    state.with_code(code, says)
                },
                None => state.finish(copy_text("Pass --code <OTP> to complete verification.")),
            }
        },
        ProvisionEvent::KeyRequested(reply) => match reply {
            Ok(_) => state.due(copy_text("Check your email for the OTP code.")),
            Err(e) => state.fail(e.message()),
        },
        ProvisionEvent::Provisioned(reply) => match reply {
            Ok(resp) => {
                let line = copy_text("Provisioned (status: ").concat(resp.status.as_str()).concat(
                    "). Check your email for the OTP verification code.",
                );
                let creds = Credentials { token: resp.api_key, api_url: None };
                (
                    ProvisionState { stage: ProvisionStage::SaveNew, ..state },
                    ProvisionAction { says: one_line(line), work: ProvisionWork::Save(creds) },
                )
            },
            Err(ApiError::Conflict(_)) => {
                let line = match &state.email {
                    Some(email) => copy_text("Account already exists for ").concat(
                        email.as_str(),
                    ).concat(". Use --request-key to recover your token."),
                    None => String::new(),
                };
                state.finish(line)
            },
            Err(e) => state.fail(e.message()),
        },
        ProvisionEvent::Verified(reply) => match reply {
            Ok(resp) => match verify_outcome(resp) {
                Verified::NewToken(creds) => {
                    let says: Vec<String> = Vec::new();
                    assert(texts(says@) =~= Seq::empty());
                    (
                        ProvisionState { stage: ProvisionStage::SaveVerified, ..state },
                        ProvisionAction { says, work: ProvisionWork::Save(creds) },
                    )
                },
                Verified::Durable => state.finish(
                    copy_text("Verified. Existing token is now durable."),
                ),
                Verified::Refused => state.fail(
                    copy_text("Verification failed — check your OTP code."),
                ),
            },
            Err(e) => state.fail(e.message()),
        },
        ProvisionEvent::Saved => if matches!(state.stage, ProvisionStage::SaveNew) {
            state.due(copy_text("Unverified token saved (expires in 72h if not verified)."))
        } else {
            state.finish(copy_text("Verified. New token saved."))
        },
    }
}

// ── Laws ────────────────────────────────────────────────────────────────────

/// Only a key that the brain has just given is saved: that of a new account, or
/// that of an account whose code was right.
pub proof fn law_only_given_keys_are_saved(v: ProvisionView, event: ProvisionEvent)
    ensures
        provision_after(v, event).1.work matches ProvisionWorkView::Save(c) ==> {
            &&& c.api_url is None
            &&& match event {
                ProvisionEvent::Provisioned(Ok(resp)) => c.token == resp.api_key@,
                ProvisionEvent::Verified(Ok(resp)) => resp.verified && opt_view(resp.api_key)
                    == Some(c.token),
                _ => false,
            }
        },
{
}

/// The key of a new account is saved before its code is asked for or verified.
pub proof fn law_new_key_is_saved_first(v: ProvisionView, event: ProvisionEvent)
    requires
        v.stage is Account,
        waits_for(v.stage, event),
    ensures
        !(provision_after(v, event).1.work is AskCode),
        !(provision_after(v, event).1.work is Verify),
{
}

/// A verification is asked for with the address of the run and a code that is not
/// empty.
pub proof fn law_empty_codes_are_not_verified(v: ProvisionView, event: ProvisionEvent)
    requires
        waits_for(v.stage, event),
        has_email(v),
    ensures
        provision_after(v, event).1.work matches ProvisionWorkView::Verify(email, code)
            ==> code.len() > 0 && v.email == Some(email),
{
}

/// A known address is asked an account for, or a recovery code where one was
/// wanted. An unknown one is asked for, and a typed one is taken without the
/// whitespace round it.
pub proof fn law_known_address_is_used(v: ProvisionView, line: String)
    ensures
        v.stage is Begin && v.email is Some && !v.request_key ==> provision_after(
            v,
            ProvisionEvent::Begun,
        ).1.work == ProvisionWorkView::Provision(v.email->0),
        v.stage is Begin && v.email is Some && v.request_key ==> provision_after(
            v,
            ProvisionEvent::Begun,
        ).1.work == ProvisionWorkView::RequestKey(v.email->0),
        v.stage is Begin && v.email is None ==> provision_after(v, ProvisionEvent::Begun).1.work
            is AskEmail,
        v.stage is Email && !v.request_key ==> provision_after(
            v,
            ProvisionEvent::Typed(Some(line)),
        ).1.work == ProvisionWorkView::Provision(trimmed(line@)),
        v.stage is Email && v.request_key ==> provision_after(
            v,
            ProvisionEvent::Typed(Some(line)),
        ).1.work == ProvisionWorkView::RequestKey(trimmed(line@)),
        v.stage is Email ==> provision_after(v, ProvisionEvent::Typed(Some(line))).0.email == Some(
            trimmed(line@),
        ),
        v.stage is Email ==> provision_after(v, ProvisionEvent::Typed(None)).1.work is Fail,
{
}

/// A code that was given is verified with the address of the run once the account
/// is there or a recovery code is on its way. Without one it is asked for, and what
/// is typed then is verified.
pub proof fn law_code_is_verified(v: ProvisionView, email: Seq<char>, line: String)
    requires
        v.email == Some(email),
    ensures
        forall|event: ProvisionEvent|
            (v.stage is SaveNew && event is Saved) || (v.stage is Recovery && event
                == ProvisionEvent::KeyRequested(Ok(()))) ==> {
                let work = (#[trigger] provision_after(v, event)).1.work;
                &&& v.code is None ==> work is AskCode
                &&& v.code is Some && v.code->0.len() > 0 ==> work == ProvisionWorkView::Verify(
                    email,
                    v.code->0,
                )
            },
        v.stage is Code && trimmed(line@).len() > 0 ==> provision_after(
            v,
            ProvisionEvent::Typed(Some(line)),
        ).1.work == ProvisionWorkView::Verify(email, trimmed(line@)),
        v.stage is Code && trimmed(line@).len() == 0 ==> provision_after(
            v,
            ProvisionEvent::Typed(Some(line)),
        ).1.work is Done,
{
}

/// The key of a new account is saved, and so is the one that comes with a code
/// that was right. Once that is done, the command ends well.
pub proof fn law_keys_are_saved(v: ProvisionView, made: ProvisionResp, checked: VerifyResp)
    ensures
        ({
            let (v1, a1) = provision_after(v, ProvisionEvent::Provisioned(Ok(made)));
            a1.work == ProvisionWorkView::Save(
                CredentialsView { token: made.api_key@, api_url: None },
            ) && v1.stage is SaveNew && v1.email == v.email && v1.code == v.code
        }),
        checked.verified && checked.api_key is Some ==> {
            let (v1, a1) = provision_after(v, ProvisionEvent::Verified(Ok(checked)));
            &&& a1.work == ProvisionWorkView::Save(
                CredentialsView { token: checked.api_key->0@, api_url: None },
            )
            &&& provision_after(v1, ProvisionEvent::Saved).1.work is Done
        },
        checked.verified && checked.api_key is None ==> provision_after(
            v,
            ProvisionEvent::Verified(Ok(checked)),
        ).1.work is Done,
        !checked.verified ==> provision_after(
            v,
            ProvisionEvent::Verified(Ok(checked)),
        ).1.work is Fail,
{
}

/// An error of the API ends the command with what it says, save that an account
/// that exists already is no failure.
pub proof fn law_api_errors_end_the_command(v: ProvisionView, e: ApiError)
    ensures
        provision_after(v, ProvisionEvent::KeyRequested(Err(e))).1.work == ProvisionWorkView::Fail(
            api_error_text(e@),
        ),
        provision_after(v, ProvisionEvent::Verified(Err(e))).1.work == ProvisionWorkView::Fail(
            api_error_text(e@),
        ),
        !(e@ is Conflict) ==> provision_after(v, ProvisionEvent::Provisioned(Err(e))).1.work
            == ProvisionWorkView::Fail(api_error_text(e@)),
        e@ is Conflict ==> provision_after(v, ProvisionEvent::Provisioned(Err(e))).1.work is Done,
{
}

/// The command has ended exactly where it says that it is done or has failed, and
/// until then it waits for what comes of its work.
pub proof fn law_every_work_has_an_outcome(v: ProvisionView, event: ProvisionEvent)
    requires
        waits_for(v.stage, event),
    ensures
        ({
            let (v1, a1) = provision_after(v, event);
            &&& v1.stage is Ended <==> (a1.work is Done || a1.work is Fail)
            &&& a1.work is AskEmail || a1.work is AskCode ==> forall|line: Option<String>|
                waits_for(v1.stage, ProvisionEvent::Typed(line))
            &&& a1.work is RequestKey ==> forall|r: Result<(), ApiError>|
                waits_for(v1.stage, ProvisionEvent::KeyRequested(r))
            &&& a1.work is Provision ==> forall|r: Result<ProvisionResp, ApiError>|
                waits_for(v1.stage, ProvisionEvent::Provisioned(r))
            &&& a1.work is Verify ==> forall|r: Result<VerifyResp, ApiError>|
                waits_for(v1.stage, ProvisionEvent::Verified(r))
            &&& a1.work is Save ==> waits_for(v1.stage, ProvisionEvent::Saved)
            &&& v1.request_key == v.request_key && v1.code == v.code
        }),
{
}

} // verus!
