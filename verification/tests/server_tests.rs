use raytracer::protocol::ConsoleCommand;
use raytracer::server::{server_step, ServerAction, ServerEvent, ServerState};

fn command(c: ConsoleCommand) -> ServerEvent {
    ServerEvent::Command(c)
}

#[test]
fn console_commands_while_waiting() {
    let w = ServerState::Waiting;
    assert_eq!(server_step(w, &command(ConsoleCommand::Clients), true), (w, ServerAction::ShowClients));
    assert_eq!(server_step(w, &command(ConsoleCommand::Blank), true), (w, ServerAction::Ignore));
    assert_eq!(
        server_step(w, &command(ConsoleCommand::Unknown("x".to_string())), true),
        (w, ServerAction::ReportUnknown)
    );
    assert_eq!(
        server_step(w, &command(ConsoleCommand::Quit), true),
        (ServerState::Stopped, ServerAction::Quit)
    );
}

#[test]
fn start_needs_a_config() {
    let w = ServerState::Waiting;
    assert_eq!(server_step(w, &command(ConsoleCommand::Start), false), (w, ServerAction::ReportNoConfig));
    assert_eq!(
        server_step(w, &command(ConsoleCommand::Start), true),
        (ServerState::Loading, ServerAction::LoadScene)
    );
}

#[test]
fn after_loading_the_scene() {
    let l = ServerState::Loading;
    assert_eq!(
        server_step(l, &ServerEvent::SceneLoaded { loaded: false, clients: 3 }, true),
        (ServerState::Waiting, ServerAction::ReportLoadFailure)
    );
    assert_eq!(
        server_step(l, &ServerEvent::SceneLoaded { loaded: true, clients: 0 }, true),
        (ServerState::RenderingLocally, ServerAction::RenderLocally)
    );
    assert_eq!(
        server_step(l, &ServerEvent::SceneLoaded { loaded: true, clients: 2 }, true),
        (ServerState::Dispatching, ServerAction::DispatchTasks)
    );
}

#[test]
fn after_rendering() {
    assert_eq!(
        server_step(ServerState::RenderingLocally, &ServerEvent::RenderFinished { written: false }, true),
        (ServerState::Stopped, ServerAction::Finish)
    );
    assert_eq!(
        server_step(ServerState::Dispatching, &ServerEvent::RenderFinished { written: true }, true),
        (ServerState::Stopped, ServerAction::ShutDownClients)
    );
    assert_eq!(
        server_step(ServerState::Dispatching, &ServerEvent::RenderFinished { written: false }, true),
        (ServerState::Waiting, ServerAction::ReportWriteFailure)
    );
}

#[test]
fn stopped_stays_stopped() {
    let s = ServerState::Stopped;
    assert_eq!(server_step(s, &command(ConsoleCommand::Start), true), (s, ServerAction::Ignore));
    assert_eq!(server_step(s, &ServerEvent::RenderFinished { written: true }, true), (s, ServerAction::Ignore));
}
