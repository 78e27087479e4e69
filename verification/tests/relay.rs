use hedwig::relay::Session;
use hedwig::relay::Step::{
    self, Close, ConnectAgent, LaunchAgent, ReadSocketFile, Relay, SendNonce, VerifyClient,
    VerifyListener,
};

fn run(can_launch: bool, outcomes: &[bool]) -> Vec<Step> {
    let mut s = Session::new(can_launch);
    let mut steps = vec![s.next_step()];
    for ok in outcomes {
        let step = s.advance(*ok);
        steps.push(step);
        if step == Step::Relay || step == Step::Close {
            break;
        }
    }
    steps
}

#[test]
fn a_verified_client_is_relayed_after_the_nonce() {
    assert_eq!(
        run(false, &[true, true, true, true, true]),
        vec![VerifyClient, ReadSocketFile, ConnectAgent, VerifyListener, SendNonce, Relay]
    );
}

#[test]
fn a_rejected_client_is_closed_before_the_agent_is_touched() {
    assert_eq!(run(true, &[false]), vec![Step::VerifyClient, Step::Close]);
}

#[test]
fn an_unreachable_agent_ends_in_close() {
    // no gpgconf: one attempt only
    assert_eq!(
        run(false, &[true, true, false]),
        vec![VerifyClient, ReadSocketFile, ConnectAgent, Close]
    );
}

#[test]
fn a_failed_attempt_launches_the_agent_once() {
    assert_eq!(
        run(true, &[true, false, true, false]),
        vec![VerifyClient, ReadSocketFile, LaunchAgent, ReadSocketFile, Close]
    );
    assert_eq!(
        run(true, &[true, true, true, false, true, true, true, true, true]),
        vec![
            VerifyClient, ReadSocketFile, ConnectAgent, VerifyListener, LaunchAgent,
            ReadSocketFile, ConnectAgent, VerifyListener, SendNonce, Relay
        ]
    );
}

#[test]
fn a_failed_launch_closes_the_client() {
    assert_eq!(
        run(true, &[true, true, true, true, false, false]),
        vec![VerifyClient, ReadSocketFile, ConnectAgent, VerifyListener, SendNonce, LaunchAgent, Close]
    );
}
