//! The decisions of the render server's console session: what each typed
//! command and each finished piece of work leads to, and when the server
//! stops. The work itself (loading the scene, rendering, talking to the
//! clients) is the caller's; it reports back what came of it.
use vstd::prelude::*;
use crate::protocol::ConsoleCommand;

verus! {

/// Where the console session stands.
#[derive(Clone, Copy, Debug, PartialEq, Eq, Structural)]
pub enum ServerState {
    /// Reading commands.
    Waiting,
    /// A `start` was typed and the scene is being loaded.
    Loading,
    /// No client is connected; the server renders the image itself.
    RenderingLocally,
    /// The rows were handed out; the image is being put together.
    Dispatching,
    /// The session is over.
    Stopped,
}

/// What happened.
#[derive(Debug)]
pub enum ServerEvent {
    /// A line was typed on the console.
    Command(ConsoleCommand),
    /// The scene was loaded (`loaded`) or failed to load, with `clients`
    /// clients connected.
    SceneLoaded { loaded: bool, clients: usize },
    /// The image was rendered and, where `written`, written to its file.
    RenderFinished { written: bool },
}

/// What the server does next.
#[derive(Clone, Copy, Debug, PartialEq, Eq, Structural)]
pub enum ServerAction {
    /// Print how many clients are connected.
    ShowClients,
    /// Report that no configuration file was given.
    ReportNoConfig,
    /// Load the scene.
    LoadScene,
    /// Report that the scene failed to load.
    ReportLoadFailure,
    /// Render the whole image locally.
    RenderLocally,
    /// Hand out rows to the clients, render the server's own rows, and write
    /// the image.
    DispatchTasks,
    /// Report that the image could not be written.
    ReportWriteFailure,
    /// Tell every client to shut down, and stop accepting clients.
    ShutDownClients,
    /// Say that the server shuts down.
    Quit,
    /// Report an unknown command.
    ReportUnknown,
    /// Report that the local render is over.
    Finish,
    /// Nothing to do.
    Ignore,
}

/// The next state and action of the session, where `has_config` tells
/// whether a configuration file was named.
pub open spec fn server_next(state: ServerState, event: ServerEvent, has_config: bool) -> (
    ServerState,
    ServerAction,
) {
    match state {
        ServerState::Waiting => match event {
            ServerEvent::Command(ConsoleCommand::Clients) => (
                ServerState::Waiting,
                ServerAction::ShowClients,
            ),
            ServerEvent::Command(ConsoleCommand::Start) => if has_config {
                (ServerState::Loading, ServerAction::LoadScene)
            } else {
                (ServerState::Waiting, ServerAction::ReportNoConfig)
            },
            ServerEvent::Command(ConsoleCommand::Quit) => (ServerState::Stopped, ServerAction::Quit),
            ServerEvent::Command(ConsoleCommand::Blank) => (
                ServerState::Waiting,
                ServerAction::Ignore,
            ),
            ServerEvent::Command(ConsoleCommand::Unknown(_)) => (
                ServerState::Waiting,
                ServerAction::ReportUnknown,
            ),
            _ => (ServerState::Waiting, ServerAction::Ignore),
        },
        ServerState::Loading => match event {
            ServerEvent::SceneLoaded { loaded, clients } => if !loaded {
                (ServerState::Waiting, ServerAction::ReportLoadFailure)
            } else if clients == 0 {
                (ServerState::RenderingLocally, ServerAction::RenderLocally)
            } else {
                (ServerState::Dispatching, ServerAction::DispatchTasks)
            },
            _ => (ServerState::Loading, ServerAction::Ignore),
        },
        ServerState::RenderingLocally => match event {
            ServerEvent::RenderFinished { .. } => (ServerState::Stopped, ServerAction::Finish),
            _ => (ServerState::RenderingLocally, ServerAction::Ignore),
        },
        ServerState::Dispatching => match event {
            ServerEvent::RenderFinished { written } => if written {
                (ServerState::Stopped, ServerAction::ShutDownClients)
            } else {
                (ServerState::Waiting, ServerAction::ReportWriteFailure)
            },
            _ => (ServerState::Dispatching, ServerAction::Ignore),
        },
        ServerState::Stopped => (ServerState::Stopped, ServerAction::Ignore),
    }
}

/// One step of the console session.
pub fn server_step(state: ServerState, event: &ServerEvent, has_config: bool) -> (next: (
    ServerState,
    ServerAction,
))
    ensures
        next == server_next(state, *event, has_config),
        state == ServerState::Loading ==> (event matches ServerEvent::SceneLoaded {
            loaded: true,
            clients,
        } && clients > 0 ==> next == (ServerState::Dispatching, ServerAction::DispatchTasks)),
        state == ServerState::Loading ==> (event matches ServerEvent::SceneLoaded {
            loaded: true,
            clients,
        } && clients == 0 ==> next == (ServerState::RenderingLocally, ServerAction::RenderLocally)),
        state == ServerState::RenderingLocally ==> (event is RenderFinished ==> next == (
            ServerState::Stopped,
            ServerAction::Finish,
        )),
{
    match state {
        ServerState::Waiting => match event {
            ServerEvent::Command(ConsoleCommand::Clients) => (
                ServerState::Waiting,
                ServerAction::ShowClients,
            ),
            ServerEvent::Command(ConsoleCommand::Start) => if has_config {
                (ServerState::Loading, ServerAction::LoadScene)
            } else {
                (ServerState::Waiting, ServerAction::ReportNoConfig)
            },
            ServerEvent::Command(ConsoleCommand::Quit) => (ServerState::Stopped, ServerAction::Quit),
            ServerEvent::Command(ConsoleCommand::Blank) => (
                ServerState::Waiting,
                ServerAction::Ignore,
            ),
            ServerEvent::Command(ConsoleCommand::Unknown(_)) => (
                ServerState::Waiting,
                ServerAction::ReportUnknown,
            ),
            _ => (ServerState::Waiting, ServerAction::Ignore),
        },
        ServerState::Loading => match event {
            ServerEvent::SceneLoaded { loaded, clients } => if !*loaded {
                (ServerState::Waiting, ServerAction::ReportLoadFailure)
            } else if *clients == 0 {
                (ServerState::RenderingLocally, ServerAction::RenderLocally)
            } else {
                (ServerState::Dispatching, ServerAction::DispatchTasks)
            },
            _ => (ServerState::Loading, ServerAction::Ignore),
        },
        ServerState::RenderingLocally => match event {
            ServerEvent::RenderFinished { .. } => (ServerState::Stopped, ServerAction::Finish),
            _ => (ServerState::RenderingLocally, ServerAction::Ignore),
        },
        ServerState::Dispatching => match event {
            ServerEvent::RenderFinished { written } => if *written {
                (ServerState::Stopped, ServerAction::ShutDownClients)
            } else {
                (ServerState::Waiting, ServerAction::ReportWriteFailure)
            },
            _ => (ServerState::Dispatching, ServerAction::Ignore),
        },
        ServerState::Stopped => (ServerState::Stopped, ServerAction::Ignore),
    }
}

/// A stopped session stays stopped, and a session stops only on `quit`
/// (or `exit`), at the end of a local render, or once a dispatched image
/// has been written; a failed write keeps the server serving.
pub proof fn lemma_server_stops(state: ServerState, event: ServerEvent, has_config: bool)
    ensures
        state == ServerState::Stopped ==> server_next(state, event, has_config).0
            == ServerState::Stopped,
        state != ServerState::Stopped && server_next(state, event, has_config).0
            == ServerState::Stopped ==> {
            ||| state == ServerState::Waiting && event matches ServerEvent::Command(
                ConsoleCommand::Quit,
            )
            ||| state == ServerState::RenderingLocally && event is RenderFinished
            ||| state == ServerState::Dispatching && event matches ServerEvent::RenderFinished {
                written: true,
            }
        },
{
}

/// Once the scene has loaded, the server renders the image itself exactly
/// when no client is connected, and hands rows out to the clients whenever
/// one or more are; a scene that fails to load is reported and the server
/// goes back to reading commands.
pub proof fn lemma_loaded_scene_route(loaded: bool, clients: usize, has_config: bool)
    ensures
        loaded && clients > 0 ==> server_next(
            ServerState::Loading,
            ServerEvent::SceneLoaded { loaded, clients },
            has_config,
        ) == (ServerState::Dispatching, ServerAction::DispatchTasks),
        loaded && clients == 0 ==> server_next(
            ServerState::Loading,
            ServerEvent::SceneLoaded { loaded, clients },
            has_config,
        ) == (ServerState::RenderingLocally, ServerAction::RenderLocally),
        !loaded ==> server_next(
            ServerState::Loading,
            ServerEvent::SceneLoaded { loaded, clients },
            has_config,
        ) == (ServerState::Waiting, ServerAction::ReportLoadFailure),
{
}

/// A local render always ends the session, whether or not its image could
/// be written.
pub proof fn lemma_local_render_ends(written: bool, has_config: bool)
    ensures
        server_next(
            ServerState::RenderingLocally,
            ServerEvent::RenderFinished { written },
            has_config,
        ) == (ServerState::Stopped, ServerAction::Finish),
{
}

/// A dispatched render that was written shuts the clients down and ends the
/// session; one whose image could not be written is reported and the server
/// goes back to reading commands.
pub proof fn lemma_dispatch_outcome(written: bool, has_config: bool)
    ensures
        written ==> server_next(
            ServerState::Dispatching,
            ServerEvent::RenderFinished { written },
            has_config,
        ) == (ServerState::Stopped, ServerAction::ShutDownClients),
        !written ==> server_next(
            ServerState::Dispatching,
            ServerEvent::RenderFinished { written },
            has_config,
        ) == (ServerState::Waiting, ServerAction::ReportWriteFailure),
{
}

/// What each typed command does while the server waits: `clients` shows
/// the clients, `start` loads the scene when a configuration file was
/// named and otherwise says that none was, `quit` stops the server, a blank
/// line does nothing, and any other line is reported as unknown.
pub proof fn lemma_waiting_commands(name: String, has_config: bool)
    ensures
        server_next(ServerState::Waiting, ServerEvent::Command(ConsoleCommand::Clients), has_config)
            == (ServerState::Waiting, ServerAction::ShowClients),
        has_config ==> server_next(
            ServerState::Waiting,
            ServerEvent::Command(ConsoleCommand::Start),
            has_config,
        ) == (ServerState::Loading, ServerAction::LoadScene),
        !has_config ==> server_next(
            ServerState::Waiting,
            ServerEvent::Command(ConsoleCommand::Start),
            has_config,
        ) == (ServerState::Waiting, ServerAction::ReportNoConfig),
        server_next(ServerState::Waiting, ServerEvent::Command(ConsoleCommand::Quit), has_config)
            == (ServerState::Stopped, ServerAction::Quit),
        server_next(ServerState::Waiting, ServerEvent::Command(ConsoleCommand::Blank), has_config)
            == (ServerState::Waiting, ServerAction::Ignore),
        server_next(
            ServerState::Waiting,
            ServerEvent::Command(ConsoleCommand::Unknown(name)),
            has_config,
        ) == (ServerState::Waiting, ServerAction::ReportUnknown),
{
}

} // verus!
