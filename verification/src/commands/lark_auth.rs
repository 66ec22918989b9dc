//! The terminal in which Lark's command line tool is installed and signed in.
use vstd::prelude::*;
use crate::pieces;
use crate::text;

verus! {

/// The id under which the terminal's sessions run.
pub const LARK_AUTH_REPO_ID: &'static str = "__helmor_triage_lark__";

/// What is done in the terminal.
#[derive(Clone, Copy, Debug, PartialEq, Eq, Structural)]
pub enum LarkAuthAction {
    Install,
    SignIn,
}

/// The heading that the terminal shows.
pub const BANNER: &'static str = r"clear; printf '\n\033[1;36m== Connect Lark ==\033[0m\n\n'; ";

/// What is typed into the terminal to install the tool and sign in.
pub const INSTALL_STEPS: &'static str = r"printf 'Step 1/2  Install lark-cli via npm (requires npm on PATH).\n'; printf 'Step 2/2  Sign in via OAuth — your default browser will open.\n\n'; npm install -g @larksuite/cli && lark-cli auth login";

/// What is typed into the terminal to sign in.
pub const SIGN_IN_STEPS: &'static str = r"printf 'Running `lark-cli auth login`. Your default browser will open.\n'; printf 'Approve the request in Lark, then come back here.\n\n'; lark-cli auth login";

impl LarkAuthAction {
    /// The action's name.
    pub open spec fn key(self) -> Seq<char> {
        match self {
            LarkAuthAction::Install => "install"@,
            LarkAuthAction::SignIn => "signIn"@,
        }
    }

    /// The commands of the action.
    pub open spec fn commands(self) -> Seq<char> {
        BANNER@ + match self {
            LarkAuthAction::Install => INSTALL_STEPS@,
            LarkAuthAction::SignIn => SIGN_IN_STEPS@,
        }
    }

    /// The kind of session that the action runs in.
    pub fn script_type(self, instance_id: &str) -> (r: String)
        ensures
            r@ == "lark-cli-auth:"@ + self.key() + ":"@ + instance_id@,
    {
        let mut out = "lark-cli-auth:".to_string();
        match self {
            LarkAuthAction::Install => {
                out.append("install");
            },
            LarkAuthAction::SignIn => {
                out.append("signIn");
            },
        }
        out.append(":");
        out.append(instance_id);
        out
    }

    /// The commands of the action.
    pub fn boot_command(self) -> (r: String)
        ensures
            r@ == self.commands(),
    {
        let mut out = BANNER.to_string();
        match self {
            LarkAuthAction::Install => {
                out.append(INSTALL_STEPS);
            },
            LarkAuthAction::SignIn => {
                out.append(SIGN_IN_STEPS);
            },
        }
        out
    }

    /// What is typed into the terminal: the commands, and then it is left.
    pub fn boot_input(self) -> (r: String)
        ensures
            r@ == self.commands() + "; exit\n"@,
    {
        let mut out = self.boot_command();
        out.append("; exit\n");
        out
    }
}

/// Where the terminal opens: in the home directory, else where the assistant runs, else at
/// the root.
pub fn working_dir(home: Option<&str>, current: Option<&str>) -> (r: String)
    ensures
        r@ == (if home matches Some(h) && pieces::trimmed(h@).len() > 0 {
            home->0@
        } else if current is Some {
            current->0@
        } else {
            "/"@
        }),
{
    match home {
        Some(h) => {
            if !pieces::trim(h).as_str().is_empty() {
                return h.to_string();
            }
        },
        None => {},
    }
    match current {
        Some(c) => c.to_string(),
        None => "/".to_string(),
    }
}

/// Sessions of different actions, or of different instances, are told apart.
pub proof fn law_sessions_are_told_apart(
    a: LarkAuthAction,
    b: LarkAuthAction,
    x: Seq<char>,
    y: Seq<char>,
)
    requires
        a != b || x != y,
    ensures
        "lark-cli-auth:"@ + a.key() + ":"@ + x != "lark-cli-auth:"@ + b.key() + ":"@ + y,
{
    reveal_strlit("lark-cli-auth:");
    reveal_strlit("install");
    reveal_strlit("signIn");
    reveal_strlit(":");
    let left = "lark-cli-auth:"@ + a.key() + ":"@ + x;
    let right = "lark-cli-auth:"@ + b.key() + ":"@ + y;
    assert("install"@[0] == 'i' && "signIn"@[0] == 's');
    if left == right {
        assert(left[14] == a.key()[0]);
        assert(right[14] == b.key()[0]);
        assert(a == b);
        let n = (14 + a.key().len() + 1) as int;
        assert(left.skip(n) =~= x);
        assert(right.skip(n) =~= y);
    }
}

/// The terminal opens in the home directory where that says anything, and never anywhere but
/// there, where the assistant runs, or at the root.
pub proof fn law_terminals_open_at_home(home: Option<&str>, current: Option<&str>, r: String)
    requires
        call_ensures(working_dir, (home, current), r),
    ensures
        home matches Some(h) ==> (pieces::says_something(h@) ==> r@ == h@),
        home is None || !pieces::says_something(home->0@) ==> r@ == (match current {
            Some(c) => c@,
            None => "/"@,
        }),
{
    match home {
        Some(h) => pieces::law_trimming_takes_only_white_space(h@),
        None => {},
    }
}

/// A session goes by its action and its instance, and what is typed into its terminal leaves
/// the terminal in the end.
pub proof fn law_sessions_go_by_action_and_instance(
    a: LarkAuthAction,
    id: &str,
    session: String,
    command: String,
    input: String,
)
    requires
        call_ensures(LarkAuthAction::script_type, (a, id), session),
        call_ensures(LarkAuthAction::boot_command, (a,), command),
        call_ensures(LarkAuthAction::boot_input, (a,), input),
    ensures
        a == LarkAuthAction::Install ==> session@ == "lark-cli-auth:"@ + "install"@ + ":"@ + id@,
        a == LarkAuthAction::SignIn ==> session@ == "lark-cli-auth:"@ + "signIn"@ + ":"@ + id@,
        input@ == command@ + "; exit\n"@,
        text::begins(command@, BANNER@),
        a == LarkAuthAction::Install ==> text::ends(command@, INSTALL_STEPS@),
        a == LarkAuthAction::SignIn ==> text::ends(command@, SIGN_IN_STEPS@),
{
    assert(command@.take(BANNER@.len() as int) =~= BANNER@);
    match a {
        LarkAuthAction::Install => {
            assert(command@.skip(command@.len() - INSTALL_STEPS@.len()) =~= INSTALL_STEPS@);
        },
        LarkAuthAction::SignIn => {
            assert(command@.skip(command@.len() - SIGN_IN_STEPS@.len()) =~= SIGN_IN_STEPS@);
        },
    }
}

} // verus!
