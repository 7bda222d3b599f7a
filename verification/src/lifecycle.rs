//! What the application does when terminals and browsers come and go, and before it ends.
use vstd::prelude::*;
use vstd::string::*;

use crate::local_pty::TerminalRuntimeStatus;
use crate::mux_store::BrowserResource;
use crate::notifications::{exit_confirmation_copy, is_chinese, DISPLAY_NAME};
use crate::number_text::decimal;
use crate::text::{copy_opt, opt_view, same};

verus! {

/// How a browser is doing.
#[derive(Clone, Copy, Debug, PartialEq, Eq, Structural)]
pub enum BrowserRuntimeStatus {
    Starting,
    Running,
    Exited,
    Error,
}

/// The terminal still has a process.
pub open spec fn is_alive(status: TerminalRuntimeStatus) -> bool {
    status == TerminalRuntimeStatus::Starting || status == TerminalRuntimeStatus::Connecting
        || status == TerminalRuntimeStatus::Running
}

/// The browser still has a process.
pub open spec fn is_open(status: BrowserRuntimeStatus) -> bool {
    status == BrowserRuntimeStatus::Starting || status == BrowserRuntimeStatus::Running
}

/// How many terminals still have a process.
pub open spec fn alive_count(terminals: Seq<TerminalRuntimeStatus>) -> nat
    decreases terminals.len(),
{
    if terminals.len() == 0 {
        0
    } else {
        alive_count(terminals.drop_last()) + if is_alive(terminals.last()) {
            1nat
        } else {
            0nat
        }
    }
}

/// How many browsers still have a process.
pub open spec fn open_count(browsers: Seq<BrowserRuntimeStatus>) -> nat
    decreases browsers.len(),
{
    if browsers.len() == 0 {
        0
    } else {
        open_count(browsers.drop_last()) + if is_open(browsers.last()) {
            1nat
        } else {
            0nat
        }
    }
}

/// How many terminals and browsers still have a process.
pub fn active_runtime_count(
    terminals: &[TerminalRuntimeStatus],
    browsers: &[BrowserRuntimeStatus],
) -> (r: usize)
    requires
        terminals@.len() + browsers@.len() <= usize::MAX,
    ensures
        r == alive_count(terminals@) + open_count(browsers@),
{
    let mut count: usize = 0;
    let mut i: usize = 0;
    while i < terminals.len()
        invariant
            i <= terminals@.len(),
            count == alive_count(terminals@.take(i as int)),
            count <= i,
        decreases terminals@.len() - i,
    {
        assert(terminals@.take(i + 1).drop_last() =~= terminals@.take(i as int));
        match terminals[i] {
            TerminalRuntimeStatus::Starting => {
                count = count + 1;
            },
            TerminalRuntimeStatus::Connecting => {
                count = count + 1;
            },
            TerminalRuntimeStatus::Running => {
                count = count + 1;
            },
            _ => {},
        }
        i = i + 1;
    }
    assert(terminals@.take(i as int) =~= terminals@);
    let mut j: usize = 0;
    while j < browsers.len()
        invariant
            j <= browsers@.len(),
            terminals@.len() + browsers@.len() <= usize::MAX,
            count == alive_count(terminals@) + open_count(browsers@.take(j as int)),
            count <= terminals@.len() + j,
        decreases browsers@.len() - j,
    {
        assert(browsers@.take(j + 1).drop_last() =~= browsers@.take(j as int));
        match browsers[j] {
            BrowserRuntimeStatus::Starting => {
                count = count + 1;
            },
            BrowserRuntimeStatus::Running => {
                count = count + 1;
            },
            _ => {},
        }
        j = j + 1;
    }
    assert(browsers@.take(j as int) =~= browsers@);
    count
}

/// What is done when the application is asked to end.
#[derive(Debug)]
pub enum ExitStep {
    /// The application is about to end already.
    LetGo,
    /// Nothing is running: everything is closed, then the application ends with this code.
    CleanUp { code: i32 },
    /// Something is running: the user is asked first.
    Ask { title: String, message: String, confirm: String, cancel: String, code: i32 },
}

/// The code that the application ends with.
pub open spec fn exit_code(code: Option<i32>) -> i32 {
    match code {
        Some(code) => code,
        None => 0,
    }
}

/// What is done when the application is asked to end. Terminals and browsers that are running are
/// not closed before the user has agreed.
pub fn exit_requested(
    cleanup_started: bool,
    terminals: &[TerminalRuntimeStatus],
    browsers: &[BrowserRuntimeStatus],
    code: Option<i32>,
    language: &str,
) -> (r: ExitStep)
    requires
        terminals@.len() + browsers@.len() <= usize::MAX,
    ensures
        r is LetGo == cleanup_started,
        r is CleanUp == (!cleanup_started && alive_count(terminals@) + open_count(browsers@) == 0),
        match r {
            ExitStep::LetGo => true,
            ExitStep::CleanUp { code: end } => end == exit_code(code),
            ExitStep::Ask { title, message, confirm, cancel, code: end } => {
                let count = decimal(alive_count(terminals@) + open_count(browsers@));
                &&& end == exit_code(code)
                &&& if is_chinese(language@) {
                    &&& title@ == "退出 "@ + DISPLAY_NAME@ + "？"@
                    &&& message@ == "仍有 "@ + count + " 个终端进程正在运行。退出会关闭这些进程。"@
                    &&& confirm@ == "退出并关闭进程"@
                    &&& cancel@ == "取消"@
                } else {
                    &&& title@ == "Quit "@ + DISPLAY_NAME@ + "?"@
                    &&& message@ == count
                        + " terminal process(es) are still running. Quitting will close them."@
                    &&& confirm@ == "Quit and close processes"@
                    &&& cancel@ == "Cancel"@
                }
            },
        },
{
    if cleanup_started {
        return ExitStep::LetGo;
    }
    let code: i32 = match code {
        Some(code) => code,
        None => 0,
    };
    let count = active_runtime_count(terminals, browsers);
    if count == 0 {
        return ExitStep::CleanUp { code };
    }
    let (title, message, confirm, cancel) = exit_confirmation_copy(language, count);
    ExitStep::Ask { title, message, confirm, cancel, code }
}

/// Notes that everything is being closed; says whether it was not before.
pub fn begin_exit_cleanup(started: &mut bool) -> (r: bool)
    ensures
        r == !*old(started),
        *final(started),
{
    let first = !*started;
    *started = true;
    first
}

/// Nothing that has a process is closed without a question.
pub proof fn law_running_terminals_are_asked_about(
    terminals: Seq<TerminalRuntimeStatus>,
    browsers: Seq<BrowserRuntimeStatus>,
)
    ensures
        alive_count(terminals) + open_count(browsers) == 0 <==> {
            &&& forall|i: int| 0 <= i < terminals.len() ==> !is_alive(#[trigger] terminals[i])
            &&& forall|i: int| 0 <= i < browsers.len() ==> !is_open(#[trigger] browsers[i])
        },
{
    lemma_alive_count(terminals);
    lemma_open_count(browsers);
}

proof fn lemma_alive_count(terminals: Seq<TerminalRuntimeStatus>)
    ensures
        alive_count(terminals) == 0 <==> forall|i: int|
            0 <= i < terminals.len() ==> !is_alive(#[trigger] terminals[i]),
    decreases terminals.len(),
{
    if terminals.len() > 0 {
        lemma_alive_count(terminals.drop_last());
        assert forall|i: int|
            alive_count(terminals) == 0 && 0 <= i < terminals.len() implies !is_alive(
            #[trigger] terminals[i],
        ) by {
            if i < terminals.len() - 1 {
                assert(terminals.drop_last()[i] == terminals[i]);
            }
        }
        if forall|i: int| 0 <= i < terminals.len() ==> !is_alive(#[trigger] terminals[i]) {
            assert(!is_alive(terminals[terminals.len() - 1]));
            assert forall|i: int| 0 <= i < terminals.len() - 1 implies !is_alive(
                #[trigger] terminals.drop_last()[i],
            ) by {
                assert(!is_alive(terminals[i]));
            }
        }
    }
}

proof fn lemma_open_count(browsers: Seq<BrowserRuntimeStatus>)
    ensures
        open_count(browsers) == 0 <==> forall|i: int|
            0 <= i < browsers.len() ==> !is_open(#[trigger] browsers[i]),
    decreases browsers.len(),
{
    if browsers.len() > 0 {
        lemma_open_count(browsers.drop_last());
        assert forall|i: int|
            open_count(browsers) == 0 && 0 <= i < browsers.len() implies !is_open(
            #[trigger] browsers[i],
        ) by {
            if i < browsers.len() - 1 {
                assert(browsers.drop_last()[i] == browsers[i]);
            }
        }
        if forall|i: int| 0 <= i < browsers.len() ==> !is_open(#[trigger] browsers[i]) {
            assert(!is_open(browsers[browsers.len() - 1]));
            assert forall|i: int| 0 <= i < browsers.len() - 1 implies !is_open(
                #[trigger] browsers.drop_last()[i],
            ) by {
                assert(!is_open(browsers[i]));
            }
        }
    }
}

/// A browser that was started, by its session and how it is doing.
#[derive(Debug)]
pub struct StartedBrowser {
    pub mux_session_id: String,
    pub status: BrowserRuntimeStatus,
}

/// The places of the browsers that are running for a session.
pub open spec fn running_for(browsers: Seq<StartedBrowser>, session_id: Seq<char>) -> Seq<int>
    decreases browsers.len(),
{
    if browsers.len() == 0 {
        Seq::empty()
    } else {
        let rest = running_for(browsers.drop_last(), session_id);
        let last = browsers.last();
        if last.mux_session_id@ == session_id && last.status == BrowserRuntimeStatus::Running {
            rest.push(browsers.len() - 1)
        } else {
            rest
        }
    }
}

/// The places of the browsers of a session that belong to no pane.
pub open spec fn local_resources(resources: Seq<BrowserResource>) -> Seq<int>
    decreases resources.len(),
{
    if resources.len() == 0 {
        Seq::empty()
    } else {
        let rest = local_resources(resources.drop_last());
        if resources.last().source_pane_id@.len() == 0 {
            rest.push(resources.len() - 1)
        } else {
            rest
        }
    }
}

/// Which browser an agent of a session works with.
#[derive(Clone, Copy, Debug, PartialEq, Eq, Structural)]
pub enum BrowserChoice {
    /// The one that is running.
    Running(usize),
    /// One that has to be started first.
    Start(usize),
}

/// The choice, or the reason why there is none.
pub open spec fn choice_of(running: Seq<int>, local: Seq<int>) -> Result<BrowserChoice, Seq<char>> {
    if running.len() == 1 {
        Ok(BrowserChoice::Running(running[0] as usize))
    } else if running.len() > 1 {
        Err("当前 Session 同时运行了多个 Browser Resource，请先只保留一个"@)
    } else if local.len() == 1 {
        Ok(BrowserChoice::Start(local[0] as usize))
    } else if local.len() == 0 {
        Err("当前 Session 没有可自动启动的本地 Browser Resource，请先创建一个"@)
    } else {
        Err("当前 Session 有多个本地 Browser Resource，无法自动选择，请先手动启动其中一个"@)
    }
}

fn running_places(browsers: &[StartedBrowser], session_id: &str) -> (r: Vec<usize>)
    ensures
        r@.len() == running_for(browsers@, session_id@).len(),
        forall|i: int|
            0 <= i < r@.len() ==> #[trigger] r@[i] == running_for(browsers@, session_id@)[i],
{
    let mut r: Vec<usize> = Vec::new();
    let mut i: usize = 0;
    while i < browsers.len()
        invariant
            i <= browsers@.len(),
            r@.len() == running_for(browsers@.take(i as int), session_id@).len(),
            forall|k: int|
                0 <= k < r@.len() ==> #[trigger] r@[k] == running_for(
                    browsers@.take(i as int),
                    session_id@,
                )[k],
        decreases browsers@.len() - i,
    {
        assert(browsers@.take(i + 1).drop_last() =~= browsers@.take(i as int));
        if same(browsers[i].mux_session_id.as_str(), session_id) && browsers[i].status
            == BrowserRuntimeStatus::Running {
            r.push(i);
        }
        i = i + 1;
    }
    assert(browsers@.take(i as int) =~= browsers@);
    r
}

fn local_places(resources: &[BrowserResource]) -> (r: Vec<usize>)
    ensures
        r@.len() == local_resources(resources@).len(),
        forall|i: int| 0 <= i < r@.len() ==> #[trigger] r@[i] == local_resources(resources@)[i],
{
    let mut r: Vec<usize> = Vec::new();
    let mut i: usize = 0;
    while i < resources.len()
        invariant
            i <= resources@.len(),
            r@.len() == local_resources(resources@.take(i as int)).len(),
            forall|k: int|
                0 <= k < r@.len() ==> #[trigger] r@[k] == local_resources(
                    resources@.take(i as int),
                )[k],
        decreases resources@.len() - i,
    {
        assert(resources@.take(i + 1).drop_last() =~= resources@.take(i as int));
        if same(resources[i].source_pane_id.as_str(), "") {
            proof {
                reveal_strlit("");
            }
            r.push(i);
        }
        proof {
            reveal_strlit("");
            assert(resources@[i as int].source_pane_id@.len() == 0 ==> resources@[i as int].source_pane_id@
                =~= ""@);
        }
        i = i + 1;
    }
    assert(resources@.take(i as int) =~= resources@);
    r
}

/// Which browser an agent of a session works with: the only one that is running; else the only one
/// of the session that belongs to no pane, which is started.
pub fn choose_browser(
    browsers: &[StartedBrowser],
    session_id: &str,
    resources: &[BrowserResource],
) -> (r: Result<BrowserChoice, String>)
    ensures
        match choice_of(running_for(browsers@, session_id@), local_resources(resources@)) {
            Ok(choice) => r is Ok && r->Ok_0 == choice,
            Err(reason) => r is Err && r->Err_0@ == reason,
        },
{
    let running = running_places(browsers, session_id);
    if running.len() == 1 {
        return Ok(BrowserChoice::Running(running[0]));
    }
    if running.len() > 1 {
        return Err(
            "当前 Session 同时运行了多个 Browser Resource，请先只保留一个".to_owned(),
        );
    }
    let local = local_places(resources);
    if local.len() == 1 {
        return Ok(BrowserChoice::Start(local[0]));
    }
    if local.len() == 0 {
        return Err(
            "当前 Session 没有可自动启动的本地 Browser Resource，请先创建一个".to_owned(),
        );
    }
    Err(
        "当前 Session 有多个本地 Browser Resource，无法自动选择，请先手动启动其中一个".to_owned(),
    )
}

proof fn lemma_running_for(browsers: Seq<StartedBrowser>, session_id: Seq<char>)
    ensures
        forall|k: int|
            0 <= k < running_for(browsers, session_id).len() ==> {
                let place = #[trigger] running_for(browsers, session_id)[k];
                &&& 0 <= place < browsers.len()
                &&& browsers[place].mux_session_id@ == session_id
                &&& browsers[place].status == BrowserRuntimeStatus::Running
            },
    decreases browsers.len(),
{
    if browsers.len() > 0 {
        lemma_running_for(browsers.drop_last(), session_id);
        assert forall|k: int| 0 <= k < running_for(browsers, session_id).len() implies {
            let place = #[trigger] running_for(browsers, session_id)[k];
            &&& 0 <= place < browsers.len()
            &&& browsers[place].mux_session_id@ == session_id
            &&& browsers[place].status == BrowserRuntimeStatus::Running
        } by {
            let rest = running_for(browsers.drop_last(), session_id);
            if k < rest.len() {
                assert(running_for(browsers, session_id)[k] == rest[k]);
                assert(browsers.drop_last()[rest[k]] == browsers[rest[k]]);
            }
        }
    }
}

/// An agent is never given the browser of another session, nor one that is not running.
pub proof fn law_agents_get_a_browser_of_their_session(
    browsers: Seq<StartedBrowser>,
    session_id: Seq<char>,
    local: Seq<int>,
    place: usize,
)
    requires
        browsers.len() <= usize::MAX,
        choice_of(running_for(browsers, session_id), local) == Ok::<_, Seq<char>>(
            BrowserChoice::Running(place),
        ),
    ensures
        place < browsers.len(),
        browsers[place as int].mux_session_id@ == session_id,
        browsers[place as int].status == BrowserRuntimeStatus::Running,
{
    lemma_running_for(browsers, session_id);
    assert(running_for(browsers, session_id)[0] == running_for(browsers, session_id)[0]);
}

/// News of a terminal, by what the application does on it.
#[derive(Debug)]
pub enum RuntimeNews {
    /// How it is doing, with the sessions of its managed agent and of its pane.
    Status { agent_session: Option<String>, pane_session: Option<String> },
    Output,
    Exit { runtime_id: String },
    Other,
}

/// What the application does on news of a terminal, before the news is passed on.
#[derive(Debug)]
pub struct RuntimeReaction {
    /// The session whose grants are read anew.
    pub refresh_session: Option<String>,
    /// The terminal whose tokens and files are taken away.
    pub revoke_runtime: Option<String>,
    /// The output is looked at for signs of an agent.
    pub record_output: bool,
}

/// What the application does on news of a terminal.
pub fn runtime_reaction(news: &RuntimeNews) -> (r: RuntimeReaction)
    ensures
        opt_view(r.refresh_session) == (match *news {
            RuntimeNews::Status { agent_session: Some(id), .. } => Some(id@),
            RuntimeNews::Status { pane_session, .. } => opt_view(pane_session),
            _ => None,
        }),
        opt_view(r.revoke_runtime) == (match *news {
            RuntimeNews::Exit { runtime_id } => Some(runtime_id@),
            _ => None,
        }),
        r.record_output == (news is Output),
{
    match news {
        RuntimeNews::Status { agent_session, pane_session } => {
            let refresh_session = match agent_session {
                Some(id) => Some(id.clone()),
                None => copy_opt(pane_session),
            };
            RuntimeReaction { refresh_session, revoke_runtime: None, record_output: false }
        },
        RuntimeNews::Output => RuntimeReaction {
            refresh_session: None,
            revoke_runtime: None,
            record_output: true,
        },
        RuntimeNews::Exit { runtime_id } => RuntimeReaction {
            refresh_session: None,
            revoke_runtime: Some(runtime_id.clone()),
            record_output: false,
        },
        RuntimeNews::Other => RuntimeReaction {
            refresh_session: None,
            revoke_runtime: None,
            record_output: false,
        },
    }
}

/// A terminal counts as running until it has exited or failed, and so does a browser.
pub proof fn law_what_has_not_ended_counts(
    terminal: TerminalRuntimeStatus,
    browser: BrowserRuntimeStatus,
)
    ensures
        is_alive(terminal) <==> terminal != TerminalRuntimeStatus::Exited && terminal
            != TerminalRuntimeStatus::Error,
        is_open(browser) <==> browser != BrowserRuntimeStatus::Exited && browser
            != BrowserRuntimeStatus::Error,
{
}

/// Each running terminal and each open browser counts once.
pub proof fn law_each_counts_once(
    terminals: Seq<TerminalRuntimeStatus>,
    terminal: TerminalRuntimeStatus,
    browsers: Seq<BrowserRuntimeStatus>,
    browser: BrowserRuntimeStatus,
)
    ensures
        alive_count(terminals.push(terminal)) == alive_count(terminals) + (if terminal
            == TerminalRuntimeStatus::Exited || terminal == TerminalRuntimeStatus::Error {
            0int
        } else {
            1int
        }),
        open_count(browsers.push(browser)) == open_count(browsers) + (if browser
            == BrowserRuntimeStatus::Exited || browser == BrowserRuntimeStatus::Error {
            0int
        } else {
            1int
        }),
        alive_count(Seq::empty()) == 0 && open_count(Seq::empty()) == 0,
{
    assert(terminals.push(terminal).drop_last() =~= terminals);
    assert(browsers.push(browser).drop_last() =~= browsers);
}

/// An agent gets the one browser that runs for its session; where none runs, the one that can be
/// started on this machine. With more than one to choose from it gets none, and is told why.
pub proof fn law_there_is_one_browser_to_choose(running: Seq<int>, local: Seq<int>)
    ensures
        running.len() == 1 ==> choice_of(running, local) == Ok::<BrowserChoice, Seq<char>>(
            BrowserChoice::Running(running[0] as usize),
        ),
        running.len() == 0 && local.len() == 1 ==> choice_of(running, local) == Ok::<
            BrowserChoice,
            Seq<char>,
        >(BrowserChoice::Start(local[0] as usize)),
        running.len() > 1 ==> choice_of(running, local) is Err,
        running.len() == 0 && local.len() != 1 ==> choice_of(running, local) is Err,
{
}

/// The browsers that count are those that run for the session; the ones that can be started are
/// those that belong to no pane.
pub proof fn law_browsers_of_the_session_count(
    browsers: Seq<StartedBrowser>,
    session_id: Seq<char>,
    resources: Seq<BrowserResource>,
    i: int,
)
    ensures
        running_for(browsers, session_id).contains(i) <==> 0 <= i < browsers.len()
            && browsers[i].mux_session_id@ == session_id && browsers[i].status
            == BrowserRuntimeStatus::Running,
        local_resources(resources).contains(i) <==> 0 <= i < resources.len()
            && resources[i].source_pane_id@.len() == 0,
    decreases browsers.len() + resources.len(),
{
    if browsers.len() > 0 {
        let front = browsers.drop_last();
        let rest = running_for(front, session_id);
        let all = running_for(browsers, session_id);
        law_browsers_of_the_session_count(front, session_id, resources, i);
        if 0 <= i < front.len() {
            assert(front[i] == browsers[i]);
        }
        if rest.contains(i) {
            let k = choose|k: int| 0 <= k < rest.len() && rest[k] == i;
            assert(all[k] == i);
        }
        if all.contains(i) && !rest.contains(i) {
            let k = choose|k: int| 0 <= k < all.len() && all[k] == i;
            if k < rest.len() {
                assert(rest[k] == i);
            }
        }
        if all.len() > rest.len() {
            assert(all[all.len() - 1] == browsers.len() - 1);
        }
    } else if resources.len() > 0 {
        let front = resources.drop_last();
        let rest = local_resources(front);
        let all = local_resources(resources);
        law_browsers_of_the_session_count(browsers, session_id, front, i);
        if 0 <= i < front.len() {
            assert(front[i] == resources[i]);
        }
        if rest.contains(i) {
            let k = choose|k: int| 0 <= k < rest.len() && rest[k] == i;
            assert(all[k] == i);
        }
        if all.contains(i) && !rest.contains(i) {
            let k = choose|k: int| 0 <= k < all.len() && all[k] == i;
            if k < rest.len() {
                assert(rest[k] == i);
            }
        }
        if all.len() > rest.len() {
            assert(all[all.len() - 1] == resources.len() - 1);
        }
    }
}

/// The news of a terminal lead to what they call for and to nothing else: its status to new grants
/// for the session of its agent, or else of its pane; its end to the loss of what it was given; its
/// output to a look at it.
pub proof fn law_news_lead_to_what_they_call_for(news: &RuntimeNews, r: RuntimeReaction)
    requires
        runtime_reaction.ensures((news,), r),
    ensures
        match *news {
            RuntimeNews::Status { agent_session, pane_session } => {
                &&& agent_session is Some ==> opt_view(r.refresh_session) == opt_view(agent_session)
                &&& agent_session is None ==> opt_view(r.refresh_session) == opt_view(pane_session)
                &&& r.revoke_runtime is None && !r.record_output
            },
            RuntimeNews::Output => r.record_output && r.refresh_session is None
                && r.revoke_runtime is None,
            RuntimeNews::Exit { runtime_id } => opt_view(r.revoke_runtime) == Some(runtime_id@)
                && r.refresh_session is None && !r.record_output,
            RuntimeNews::Other => r.refresh_session is None && r.revoke_runtime is None
                && !r.record_output,
        },
{
}

/// The user is asked exactly where something still runs and the end has not begun; without anything
/// running all is cleaned up at once. The code is the one that was asked for, or else zero.
pub proof fn law_the_user_is_asked_before_anything_is_lost(
    cleanup_started: bool,
    terminals: &[TerminalRuntimeStatus],
    browsers: &[BrowserRuntimeStatus],
    code: Option<i32>,
    language: &str,
    r: ExitStep,
)
    requires
        exit_requested.ensures((cleanup_started, terminals, browsers, code, language), r),
    ensures
        ({
            let running = alive_count(terminals@) + open_count(browsers@) > 0;
            &&& r is Ask <==> !cleanup_started && running
            &&& r is CleanUp <==> !cleanup_started && !running
            &&& r is LetGo <==> cleanup_started
            &&& r matches ExitStep::CleanUp { code: end } ==> end == (if code is Some {
                code->0
            } else {
                0i32
            })
        }),
        r matches ExitStep::Ask { code: end, .. } ==> end == (if code is Some {
            code->0
        } else {
            0i32
        }),
{
}

} // verus!
