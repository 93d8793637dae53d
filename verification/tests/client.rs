//! The decisions of the client actor and its handles.

use std::time::Duration;

use chrono::TimeDelta;

use frequenz_microgrid::backoff::BackoffConfig;
use frequenz_microgrid::bounds::Bounds;
use frequenz_microgrid::client::microgrid_client_actor::{
    augment_bounds_reply, instruction_outcome, list_components_reply, list_connections_reply,
    run_electrical_component_telemetry_stream, start_electrical_component_telemetry_stream,
    Instruction, MicrogridClientActor, Request, StreamAction, StreamEvent, StreamStatus,
    StreamStep,
};
use frequenz_microgrid::client::microgrid_client_handle::{
    augment_electrical_component_bounds, fault_error, HandleFault,
};
use frequenz_microgrid::client::proto::{
    Bounds as PbBounds, Coded, ElectricalComponent, ElectricalComponentCategory,
    ElectricalComponentConnection, ElectricalComponentOperationalMode,
    ElectricalComponentTelemetry, Metric, Timestamp,
};
use frequenz_microgrid::metric::AcPowerReactive;
use frequenz_microgrid::single::Single;
use frequenz_microgrid::time::UtcTime;

fn single(value: f32) -> Single {
    Single::from_bits(value.to_bits())
}

const SECOND: u128 = 1_000_000_000;

fn actor() -> MicrogridClientActor {
    MicrogridClientActor::new(
        BackoffConfig::try_new(
            Duration::from_secs(3),
            Duration::from_secs(6),
            single(2.0),
            single(0.0),
        )
        .unwrap(),
    )
}

fn receive(actor: &mut MicrogridClientActor, id: u64) -> Request {
    actor.handle_instruction(Some(
        Instruction::ReceiveElectricalComponentTelemetryStream {
            electrical_component_id: id,
        },
    ))
}

fn status(
    actor: &mut MicrogridClientActor,
    status: Option<StreamStatus>,
    receivers: usize,
    now: u128,
) -> StreamAction {
    actor.handle_stream_status(
        status,
        receivers,
        now,
        |d: Duration| d * 2,
        |d: Duration| d,
    )
}

#[test]
fn handles_share_a_stream() {
    let mut actor = actor();
    assert!(matches!(
        receive(&mut actor, 2),
        Request::OpenStream {
            electrical_component_id: 2
        }
    ));
    assert!(matches!(
        receive(&mut actor, 2),
        Request::Subscribe {
            electrical_component_id: 2
        }
    ));
    assert!(matches!(
        receive(&mut actor, 3),
        Request::OpenStream {
            electrical_component_id: 3
        }
    ));
    assert!(matches!(actor.handle_instruction(None), Request::Nothing));
}

#[test]
fn failed_streams_are_retried_when_due() {
    let mut actor = actor();
    receive(&mut actor, 2);
    receive(&mut actor, 3);
    let start = 10 * SECOND;
    assert_eq!(
        status(&mut actor, Some(StreamStatus::Failed(3)), 1, start),
        StreamAction::Nothing
    );
    assert_eq!(
        status(&mut actor, Some(StreamStatus::Failed(2)), 1, start + SECOND),
        StreamAction::Nothing
    );
    assert!(actor.handle_retry_timer(start + 2 * SECOND).restart.is_empty());
    assert_eq!(actor.handle_retry_timer(start + 3 * SECOND).restart, vec![3]);
    // It was consumed.
    assert!(actor.handle_retry_timer(start + 3 * SECOND).restart.is_empty());
    assert_eq!(actor.handle_retry_timer(start + 4 * SECOND).restart, vec![2]);

    // The next delay of component 3 is twice as long.
    let start = 20 * SECOND;
    status(&mut actor, Some(StreamStatus::Failed(3)), 1, start);
    assert!(actor.handle_retry_timer(start + 5 * SECOND).restart.is_empty());
    assert_eq!(actor.handle_retry_timer(start + 6 * SECOND).restart, vec![3]);

    // Once it connected, the delays start anew.
    status(&mut actor, Some(StreamStatus::Connected(3)), 1, start);
    let start = 40 * SECOND;
    status(&mut actor, Some(StreamStatus::Failed(3)), 1, start);
    let actions = actor.handle_retry_timer(start + 3 * SECOND);
    assert_eq!(actions.restart, vec![3]);
    assert!(actions.error.is_none());
}

#[test]
fn a_retry_without_a_stream_is_an_error() {
    let mut actor = actor();
    receive(&mut actor, 1);
    let start = 10 * SECOND;
    status(&mut actor, Some(StreamStatus::Failed(1)), 1, start);
    // Nobody asked for component 9.
    status(&mut actor, Some(StreamStatus::Failed(9)), 0, start);
    let actions = actor.handle_retry_timer(start + 3 * SECOND);
    assert_eq!(actions.restart, vec![1]);
    assert_eq!(
        actions.error.unwrap().to_text(),
        "Internal: Component stream not found for retry: 9"
    );
}

#[test]
fn streams_that_end_are_forgotten_unless_somebody_came() {
    let mut actor = actor();
    receive(&mut actor, 2);
    assert_eq!(
        status(&mut actor, Some(StreamStatus::Ended(2)), 1, 0),
        StreamAction::Restart(2)
    );
    assert!(matches!(receive(&mut actor, 2), Request::Subscribe { .. }));
    assert_eq!(
        status(&mut actor, Some(StreamStatus::Ended(2)), 0, 0),
        StreamAction::Forget(2)
    );
    assert!(matches!(receive(&mut actor, 2), Request::OpenStream { .. }));
    assert_eq!(status(&mut actor, None, 0, 0), StreamAction::Exit);
}

#[test]
fn lists_are_asked_for_as_they_stand() {
    let mut actor = actor();
    match actor.handle_instruction(Some(Instruction::ListElectricalComponents {
        electrical_component_ids: vec![1, 2],
        electrical_component_categories: vec![ElectricalComponentCategory::Meter],
    })) {
        Request::ListElectricalComponents {
            electrical_component_ids,
            electrical_component_categories,
        } => {
            assert_eq!(electrical_component_ids, vec![1, 2]);
            assert_eq!(
                electrical_component_categories,
                vec![ElectricalComponentCategory::Meter]
            );
        }
        _ => panic!("expected a list of components"),
    }
    match actor.handle_instruction(Some(Instruction::ListElectricalComponentConnections {
        source_electrical_component_ids: vec![1],
        destination_electrical_component_ids: vec![2, 3],
    })) {
        Request::ListElectricalComponentConnections {
            source_electrical_component_ids,
            destination_electrical_component_ids,
        } => {
            assert_eq!(source_electrical_component_ids, vec![1]);
            assert_eq!(destination_electrical_component_ids, vec![2, 3]);
        }
        _ => panic!("expected a list of connections"),
    }
}

fn augment(lifetime: Option<TimeDelta>) -> Option<u64> {
    let bounds = vec![
        Bounds::new(Some(single(-1.0)), Some(single(2.0))),
        Bounds::new(None, Some(single(5.0))),
    ];
    let instruction = augment_electrical_component_bounds::<AcPowerReactive>(7, &bounds, lifetime);
    match actor().handle_instruction(Some(instruction)) {
        Request::AugmentElectricalComponentBounds {
            electrical_component_id,
            target_metric,
            bounds,
            request_lifetime,
        } => {
            assert_eq!(electrical_component_id, 7);
            assert_eq!(target_metric, Metric::AcPowerReactive);
            assert_eq!(
                bounds,
                vec![
                    PbBounds {
                        lower: Some(single(-1.0)),
                        upper: Some(single(2.0))
                    },
                    PbBounds {
                        lower: None,
                        upper: Some(single(5.0))
                    },
                ]
            );
            request_lifetime
        }
        _ => panic!("expected a request for bounds"),
    }
}

#[test]
fn bounds_are_added_for_whole_seconds() {
    assert_eq!(augment(None), None);
    assert_eq!(
        augment(Some(TimeDelta::try_milliseconds(5900).unwrap())),
        Some(5)
    );
    assert_eq!(augment(Some(TimeDelta::zero())), Some(0));
    assert_eq!(augment(Some(TimeDelta::try_seconds(-1).unwrap())), None);
    // Less than a second before zero rounds to zero.
    assert_eq!(
        augment(Some(TimeDelta::try_milliseconds(-500).unwrap())),
        Some(0)
    );
}

#[test]
fn replies_of_the_api_are_passed_on() {
    let component = ElectricalComponent {
        id: 1,
        category: Coded::Known(ElectricalComponentCategory::Meter),
        category_specific_info: None,
        operational_mode: Coded::Known(ElectricalComponentOperationalMode::Unspecified),
    };
    assert_eq!(
        list_components_reply(Ok(vec![component])).ok().unwrap(),
        vec![component]
    );
    let connection = ElectricalComponentConnection {
        source_electrical_component_id: 1,
        destination_electrical_component_id: 2,
    };
    assert_eq!(
        list_connections_reply(Ok(vec![connection])).ok().unwrap(),
        vec![connection]
    );
    assert_eq!(augment_bounds_reply(Ok(None)).ok().unwrap(), None);
    assert_eq!(
        augment_bounds_reply(Ok(Some(Timestamp {
            seconds: 100,
            nanos: 7
        })))
        .ok()
        .unwrap(),
        Some(UtcTime {
            seconds: 100,
            nanos: 7
        })
    );
    // No calendar shows this time.
    assert_eq!(
        augment_bounds_reply(Ok(Some(Timestamp {
            seconds: 100,
            nanos: -7
        })))
        .ok()
        .unwrap(),
        None
    );
}

#[test]
fn refusals_of_the_api_are_reported() {
    let no = || "no".to_string();
    assert_eq!(
        list_components_reply(Err(no())).err().unwrap().to_text(),
        "ConnectionFailure: list_components failed: no"
    );
    assert_eq!(
        list_connections_reply(Err(no())).err().unwrap().to_text(),
        "ConnectionFailure: list_connections failed: no"
    );
    assert_eq!(
        augment_bounds_reply(Err(no())).err().unwrap().to_text(),
        "APIServerError: augment_electrical_component_bounds failed: no"
    );
    assert_eq!(
        fault_error(HandleFault::NotSent).to_text(),
        "Internal: failed to send instruction"
    );
    assert_eq!(
        fault_error(HandleFault::NotAnswered("closed".to_string())).to_text(),
        "Internal: failed to receive response: closed"
    );
    assert_eq!(
        fault_error(HandleFault::InvalidUrl {
            url: "x y".to_string(),
            reason: "invalid".to_string()
        })
        .to_text(),
        "ConnectionFailure: Invalid microgrid API URL x y: invalid"
    );
}

#[test]
fn a_stream_is_read_while_somebody_listens() {
    assert_eq!(
        start_electrical_component_telemetry_stream(4, true),
        StreamStatus::Connected(4)
    );
    assert_eq!(
        start_electrical_component_telemetry_stream(4, false),
        StreamStatus::Failed(4)
    );
    let step = |event| run_electrical_component_telemetry_stream(4, event);
    assert!(matches!(step(StreamEvent::Receivers(1)), StreamStep::Read));
    assert!(matches!(
        step(StreamEvent::Receivers(0)),
        StreamStep::Finish(StreamStatus::Ended(4))
    ));
    let data = ElectricalComponentTelemetry {
        electrical_component_id: 4,
        metric_samples: vec![],
        state_snapshots: vec![],
    };
    match step(StreamEvent::Telemetry(data.clone())) {
        StreamStep::Forward(forwarded) => assert_eq!(forwarded, data),
        _ => panic!("telemetry must be forwarded"),
    }
    assert!(matches!(
        step(StreamEvent::EmptyMessage),
        StreamStep::CountReceivers
    ));
    assert!(matches!(
        step(StreamEvent::Broken),
        StreamStep::Finish(StreamStatus::Failed(4))
    ));
    assert!(matches!(
        step(StreamEvent::Closed),
        StreamStep::Finish(StreamStatus::Failed(4))
    ));
}

#[test]
fn an_instruction_fails_where_nobody_waits_for_its_answer() {
    assert!(instruction_outcome(true).is_ok());
    assert_eq!(
        instruction_outcome(false).err().unwrap().to_text(),
        "Internal: failed to send response"
    );
}
