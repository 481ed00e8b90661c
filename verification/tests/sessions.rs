use qmux_endpoint::client::ClientError;
use qmux_endpoint::fetch::ClientReport;
use qmux_endpoint::fetch::ClientSession;
use qmux_endpoint::fetch::ClientStep;
use qmux_endpoint::protocol::Protocol;
use qmux_endpoint::protocol::ServeError;
use qmux_endpoint::server::ServerReport;
use qmux_endpoint::server::ServerSession;
use qmux_endpoint::server::ServerStep;

const UP: ServerReport = ServerReport { established: true, closed: false, open: true };

const WAITING: ClientReport = ClientReport {
    established: true,
    closed: false,
    received: Some(true),
    done: false,
    complete: false,
    closing: false,
};

fn server_steps(session: &mut ServerSession, report: ServerReport, n: usize) -> Vec<ServerStep> {
    let mut steps = Vec::new();
    for _ in 0..n {
        steps.push(session.step());
        session.on_step(report);
    }
    steps
}

fn client_steps(session: &mut ClientSession, report: ClientReport, n: usize) -> Vec<ClientStep> {
    let mut steps = Vec::new();
    for _ in 0..n {
        steps.push(session.step());
        session.on_step(report);
    }
    steps
}

#[test]
fn server_rounds_of_http3() {
    let mut session = ServerSession::new(Protocol::H3, false);
    assert_eq!(
        server_steps(&mut session, UP, 9),
        vec![
            ServerStep::Flush,
            ServerStep::Flush,
            ServerStep::TakeRequests,
            ServerStep::Flush,
            ServerStep::Receive,
            ServerStep::Flush,
            ServerStep::TakeRequests,
            ServerStep::Flush,
            ServerStep::Receive,
        ]
    );
}

#[test]
fn server_rounds_with_datagrams() {
    let mut session = ServerSession::new(Protocol::H3, true);
    assert_eq!(
        server_steps(&mut session, UP, 7),
        vec![
            ServerStep::Flush,
            ServerStep::Flush,
            ServerStep::TakeRequests,
            ServerStep::EchoDgrams,
            ServerStep::Flush,
            ServerStep::Receive,
            ServerStep::Flush,
        ]
    );
}

#[test]
fn server_rounds_of_http09() {
    let mut session = ServerSession::new(Protocol::Http09, true);
    assert_eq!(
        server_steps(&mut session, UP, 8),
        vec![
            ServerStep::Flush,
            ServerStep::WriteResponses,
            ServerStep::Flush,
            ServerStep::TakeRequests,
            ServerStep::WriteResponses,
            ServerStep::Flush,
            ServerStep::Receive,
            ServerStep::WriteResponses,
        ]
    );
}

#[test]
fn server_waits_for_the_handshake() {
    let mut session = ServerSession::new(Protocol::H3, false);
    let waiting = ServerReport { established: false, ..UP };
    assert_eq!(
        server_steps(&mut session, waiting, 3),
        vec![ServerStep::Flush, ServerStep::Drive, ServerStep::Drive]
    );
    session.on_step(UP);
    assert_eq!(server_steps(&mut session, UP, 2), vec![ServerStep::Flush, ServerStep::TakeRequests]);
}

#[test]
fn server_fails_if_the_peer_leaves_in_the_handshake() {
    let mut session = ServerSession::new(Protocol::Http09, false);
    session.on_step(ServerReport { established: false, ..UP });
    session.on_step(ServerReport { established: true, closed: false, open: false });
    let failed = ServerStep::Fail(ServeError::ConnectionClosed);
    assert_eq!(server_steps(&mut session, UP, 2), vec![failed, failed]);
}

#[test]
fn server_stops_when_the_connection_is_closed() {
    let mut session = ServerSession::new(Protocol::H3, false);
    let closed = ServerReport { closed: true, ..UP };
    assert_eq!(
        server_steps(&mut session, closed, 6),
        vec![
            ServerStep::Flush,
            ServerStep::Flush,
            ServerStep::TakeRequests,
            ServerStep::Flush,
            ServerStep::Stop,
            ServerStep::Stop,
        ]
    );
}

#[test]
fn server_stops_when_the_peer_leaves() {
    let mut session = ServerSession::new(Protocol::H3, false);
    server_steps(&mut session, UP, 4);
    assert_eq!(session.step(), ServerStep::Receive);
    session.on_step(ServerReport { open: false, ..UP });
    assert_eq!(session.step(), ServerStep::Stop);
}

#[test]
fn client_rounds_of_http3() {
    let mut session = ClientSession::new(Protocol::H3);
    assert_eq!(
        client_steps(&mut session, WAITING, 8),
        vec![
            ClientStep::Flush,
            ClientStep::SendRequests,
            ClientStep::Flush,
            ClientStep::TakeResponses,
            ClientStep::TakeDgrams,
            ClientStep::Flush,
            ClientStep::Receive,
            ClientStep::TakeResponses,
        ]
    );
}

#[test]
fn client_rounds_of_http09() {
    let mut session = ClientSession::new(Protocol::Http09);
    assert_eq!(
        client_steps(&mut session, WAITING, 7),
        vec![
            ClientStep::Flush,
            ClientStep::SendRequests,
            ClientStep::Flush,
            ClientStep::TakeResponses,
            ClientStep::Flush,
            ClientStep::Receive,
            ClientStep::TakeResponses,
        ]
    );
}

#[test]
fn client_waits_for_the_handshake() {
    let mut session = ClientSession::new(Protocol::H3);
    let waiting = ClientReport { established: false, ..WAITING };
    assert_eq!(
        client_steps(&mut session, waiting, 3),
        vec![ClientStep::Flush, ClientStep::Drive, ClientStep::Drive]
    );
    session.on_step(ClientReport { received: Some(false), ..waiting });
    let failed = ClientStep::Fail(ClientError::HandshakeClosed);
    assert_eq!(client_steps(&mut session, WAITING, 2), vec![failed, failed]);
}

#[test]
fn client_closes_when_everything_has_come() {
    let mut session = ClientSession::new(Protocol::Http09);
    client_steps(&mut session, WAITING, 4);
    assert_eq!(session.step(), ClientStep::Flush);
    let done = ClientReport { done: true, complete: true, closing: true, ..WAITING };
    assert_eq!(
        client_steps(&mut session, done, 5),
        vec![
            ClientStep::Flush,
            ClientStep::Close,
            ClientStep::Flush,
            ClientStep::Stop,
            ClientStep::Stop,
        ]
    );
}

#[test]
fn client_has_no_goodbye_for_a_closed_connection() {
    let mut session = ClientSession::new(Protocol::H3);
    client_steps(&mut session, WAITING, 5);
    let closed = ClientReport { closed: true, done: true, complete: true, ..WAITING };
    assert_eq!(
        client_steps(&mut session, closed, 3),
        vec![ClientStep::Flush, ClientStep::Close, ClientStep::Stop]
    );
}

#[test]
fn http09_client_fails_if_something_is_missing() {
    let mut session = ClientSession::new(Protocol::Http09);
    client_steps(&mut session, WAITING, 5);
    assert_eq!(session.step(), ClientStep::Receive);
    session.on_step(ClientReport { received: Some(false), ..WAITING });
    assert_eq!(session.step(), ClientStep::Fail(ClientError::Incomplete));
}

#[test]
fn http3_client_fails_if_the_peer_leaves() {
    let mut session = ClientSession::new(Protocol::H3);
    client_steps(&mut session, WAITING, 6);
    assert_eq!(session.step(), ClientStep::Receive);
    session.on_step(ClientReport { received: Some(false), ..WAITING });
    let failed = ClientStep::Fail(ClientError::H3Incomplete);
    assert_eq!(client_steps(&mut session, WAITING, 2), vec![failed, failed]);
}

#[test]
fn http3_client_fails_if_the_connection_is_closed() {
    let mut session = ClientSession::new(Protocol::H3);
    client_steps(&mut session, WAITING, 5);
    assert_eq!(session.step(), ClientStep::Flush);
    session.on_step(ClientReport { closed: true, ..WAITING });
    assert_eq!(session.step(), ClientStep::Fail(ClientError::H3Incomplete));
}

#[test]
fn http3_client_fails_if_a_response_was_given_up() {
    let mut session = ClientSession::new(Protocol::H3);
    client_steps(&mut session, WAITING, 5);
    assert_eq!(session.step(), ClientStep::Flush);
    session.on_step(ClientReport { done: true, complete: false, ..WAITING });
    assert_eq!(session.step(), ClientStep::Fail(ClientError::H3Incomplete));
}

#[test]
fn client_waits_on_when_time_runs_out() {
    for protocol in [Protocol::H3, Protocol::Http09] {
        let mut session = ClientSession::new(protocol);
        while session.step() != ClientStep::Receive {
            session.on_step(WAITING);
        }
        session.on_step(ClientReport { received: None, ..WAITING });
        assert_eq!(session.step(), ClientStep::TakeResponses);
    }
    let mut session = ClientSession::new(Protocol::H3);
    client_steps(&mut session, WAITING, 6);
    session.on_step(ClientReport { received: None, closed: true, ..WAITING });
    assert_eq!(session.step(), ClientStep::Fail(ClientError::H3Incomplete));
}

#[test]
fn client_without_requests_closes_at_once() {
    let mut session = ClientSession::new(Protocol::Http09);
    let done = ClientReport { done: true, complete: true, ..WAITING };
    assert_eq!(
        client_steps(&mut session, done, 5),
        vec![
            ClientStep::Flush,
            ClientStep::SendRequests,
            ClientStep::Flush,
            ClientStep::Close,
            ClientStep::Stop,
        ]
    );
}
