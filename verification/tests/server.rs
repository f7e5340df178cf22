use esotereel::client_views::ViewRange;
use esotereel::model::{ClipRecord, HostError, LayerRecord, OutlineNode, ProjectModel, TimelineModel};
use esotereel::server::{query_range, Request, ResourceTable, ServerAction, ServerSession};

fn clip(id: u64, position: i64, duration: i64) -> ClipRecord {
    ClipRecord { id, layer_id: 10, position, duration, is_composite: false, nested_timeline: None }
}

fn timeline(id: u32) -> TimelineModel {
    TimelineModel {
        id,
        roots: vec![OutlineNode::Layer(10)],
        execution_order: vec![10],
        layers: vec![LayerRecord { id: 10, name: "v".to_string(), enabled: true, clips: vec![] }],
        folders: vec![],
        clips: vec![clip(1, 0, 10), clip(2, 50, 10), clip(3, 95, 10)],
    }
}

fn project() -> ProjectModel {
    ProjectModel { timelines: vec![timeline(0), timeline(3)] }
}

#[test]
fn clips_in_range_are_those_overlapping_it() {
    let t = timeline(0);
    let ids: Vec<u64> = query_range(&t, ViewRange { start: 10, end: 96 }).iter().map(|e| e.1.id).collect();
    assert_eq!(ids, vec![2, 3]);
    let ids: Vec<u64> = query_range(&t, ViewRange { start: 9, end: 50 }).iter().map(|e| e.1.id).collect();
    assert_eq!(ids, vec![1]);
}

#[test]
fn requests_without_a_project_fail() {
    let mut s = ServerSession::new();
    let out = s.on_request_receive(1, Request::ProjectAll);
    assert!(out.actions.is_empty());
    assert_eq!(out.error, Some(HostError::ProjectNotFound));
    let out = s.on_request_receive(1, Request::Command { timeline_id: 0 });
    assert_eq!(out.error, Some(HostError::ProjectNotFound));
    let out = s.on_request_receive(1, Request::DebugFetchProjectStruct);
    assert!(matches!(out.actions[..], [ServerAction::SendProjectStruct { client_id: 1, present: false }]));
    assert_eq!(out.error, Some(HostError::ProjectNotFound));
    let out = s.on_request_receive(1, Request::FetchClipsInRange { timeline_id: 0, range: ViewRange { start: 0, end: 5 } });
    assert_eq!(out.error, Some(HostError::ProjectNotFound));
    // The view was recorded all the same.
    assert_eq!(s.views.clients_watching_timeline(0), vec![1]);
}

#[test]
fn a_new_project_is_watched_whole_by_its_client() {
    let mut s = ServerSession::new();
    let out = s.on_request_receive(2, Request::NewProject);
    assert!(matches!(out.actions[..], [ServerAction::CreateProject { client_id: 2 }]));
    match s.install_project(2, project()) {
        ServerAction::SendProjectMeta { client_id, timelines } => {
            assert_eq!(client_id, 2);
            assert_eq!(timelines, vec![0, 3]);
        },
        _ => panic!("expected the project's timelines"),
    }
    assert_eq!(s.views.clients_watching_in(3, &ViewRange { start: -5, end: 5 }), vec![2]);
    let out = s.on_request_receive(4, Request::ProjectAll);
    assert!(matches!(&out.actions[..], [ServerAction::SendProjectMeta { client_id: 4, .. }]));
    assert_eq!(out.error, None);
    let mut watching = s.views.clients_watching_timeline(0);
    watching.sort();
    assert_eq!(watching, vec![2, 4]);
}

#[test]
fn fetching_clips_answers_with_the_clips_in_range() {
    let mut s = ServerSession::new();
    s.install_project(1, project());
    let out = s.on_request_receive(1, Request::FetchClipsInRange { timeline_id: 3, range: ViewRange { start: 40, end: 60 } });
    match &out.actions[..] {
        [ServerAction::SendClips { client_id: 1, timeline_id: 3, clips }] => {
            assert_eq!(clips.len(), 1);
            assert_eq!(clips[0].0, 10);
            assert_eq!(clips[0].1.id, 2);
        },
        _ => panic!("expected clips"),
    }
    assert!(s.views.clients_watching_in(3, &ViewRange { start: 70, end: 80 }).is_empty());
    let out = s.on_request_receive(1, Request::FetchClipsInRange { timeline_id: 9, range: ViewRange { start: 0, end: 1 } });
    assert_eq!(out.error, Some(HostError::TimelineNotFound(9)));
    let out = s.on_request_receive(1, Request::Command { timeline_id: 3 });
    assert!(matches!(out.actions[..], [ServerAction::ApplyCommand { timeline_id: 3 }]));
    assert_eq!(out.error, None);
}

#[test]
fn a_command_wakes_the_sender_only_when_it_applied() {
    let s = ServerSession::new();
    assert!(matches!(s.command_done::<String>(Ok(())), Ok(ServerAction::NotifyDirty)));
    match s.command_done(Err("clip not found".to_string())) {
        Err(e) => assert_eq!(e, "clip not found"),
        Ok(_) => panic!("a failed command must end the request with its error"),
    }
}

#[test]
fn a_command_without_a_project_fails() {
    let mut s = ServerSession::new();
    let out = s.on_request_receive(1, Request::Command { timeline_id: 3 });
    assert!(out.actions.is_empty());
    assert_eq!(out.error, Some(HostError::ProjectNotFound));
}

#[test]
fn each_opened_stream_gets_a_new_resource_id() {
    let mut s = ServerSession::new();
    let out = s.on_request_receive(1, Request::InitStream { path: "/v.mp4".to_string() });
    assert!(matches!(&out.actions[..], [ServerAction::OpenStream { client_id: 1, path }] if path == "/v.mp4"));
    let out = s.on_request_receive(1, Request::FetchStreamData { resource_id: 0 });
    assert_eq!(out.error, Some(HostError::StreamNotFound(0)));
    let a = s.stream_opened(1, "/v.mp4".to_string());
    let b = s.stream_opened(2, "/w.mp4".to_string());
    let c = s.stream_opened(3, "/v.mp4".to_string());
    let id = |x: &ServerAction| match x {
        ServerAction::SendStreamInit { resource_id, .. } => *resource_id,
        _ => panic!("expected a stream"),
    };
    assert_eq!((id(&a), id(&b), id(&c)), (0, 1, 2));
    assert_eq!(s.resources.next_resource_id, 3);
    let out = s.on_request_receive(5, Request::FetchStreamData { resource_id: 1 });
    assert!(matches!(out.actions[..], [ServerAction::FetchStream { client_id: 5, resource_id: 1 }]));
    let out = s.on_request_receive(5, Request::FetchStreamData { resource_id: 0 });
    assert!(matches!(out.actions[..], [ServerAction::FetchStream { client_id: 5, resource_id: 0 }]));
    let out = s.on_request_receive(5, Request::Test);
    assert!(out.actions.is_empty() && out.error.is_none());
}

#[test]
fn a_recorded_stream_state_gives_its_id() {
    let mut t = ResourceTable {
        stream_states: vec![("/v.mp4".to_string(), 7)],
        loaded: vec![],
        next_resource_id: 3,
    };
    assert_eq!(t.get_or_create_resource_id("/v.mp4"), 7);
    assert_eq!(t.next_resource_id, 3);
    assert_eq!(t.get_or_create_resource_id("/w.mp4"), 3);
    assert_eq!(t.next_resource_id, 4);
}

#[test]
fn resource_ids_wrap_at_the_end_of_the_counter() {
    let mut t = ResourceTable { stream_states: vec![], loaded: vec![], next_resource_id: u32::MAX };
    assert_eq!(t.get_or_create_resource_id("a"), u32::MAX);
    assert_eq!(t.next_resource_id, 0);
}
