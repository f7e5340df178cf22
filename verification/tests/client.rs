use esotereel::client::{req_fetch_frame, ClientAction, ClientSession, FetchFrameError, Response};
use esotereel::client_views::ViewRange;
use esotereel::model::{HostError, ProjectModel, TimelineModel};
use esotereel::server::Request;

fn session_with_timeline(id: u32) -> ClientSession {
    let mut s = ClientSession::new();
    s.project = Some(ProjectModel {
        timelines: vec![TimelineModel { id, roots: vec![], execution_order: vec![], layers: vec![], folders: vec![], clips: vec![] }],
    });
    s
}

#[test]
fn project_metadata_installs_the_project_and_redraws_each_timeline() {
    let s = ClientSession::new();
    let r = s.on_responce_recveve(&Response::ProjectMeta { timeline_count: 3 }).ok().unwrap();
    assert!(matches!(
        r[..],
        [ClientAction::InstallProject, ClientAction::MarkDirty(0), ClientAction::MarkDirty(1), ClientAction::MarkDirty(2)]
    ));
}

#[test]
fn edits_without_a_project_are_dropped() {
    let s = ClientSession::new();
    assert!(s.on_responce_recveve(&Response::UpdateClip { timeline_id: 0 }).ok().unwrap().is_empty());
}

#[test]
fn edits_of_a_known_timeline_apply_then_redraw() {
    let s = session_with_timeline(4);
    let r = s.on_responce_recveve(&Response::UpdateLayer { timeline_id: 4, has_root_layers: true }).ok().unwrap();
    assert!(matches!(
        r[..],
        [ClientAction::ApplyLayerMetas(4), ClientAction::SetRootLayers(4), ClientAction::MarkDirty(4)]
    ));
    let r = s.on_responce_recveve(&Response::RemoveClip { timeline_id: 4 }).ok().unwrap();
    assert!(matches!(r[..], [ClientAction::RemoveClips(4), ClientAction::MarkDirty(4)]));
    let r = s.on_responce_recveve(&Response::RemoveLayer { timeline_id: 4 }).ok().unwrap();
    assert!(matches!(r[..], [ClientAction::RemoveLayers(4), ClientAction::MarkDirty(4)]));
    let r = s.on_responce_recveve(&Response::UpdateLayer { timeline_id: 4, has_root_layers: false }).ok().unwrap();
    assert!(matches!(r[..], [ClientAction::ApplyLayerMetas(4), ClientAction::MarkDirty(4)]));
}

#[test]
fn edits_of_an_unknown_timeline_fail() {
    let s = session_with_timeline(4);
    assert_eq!(s.on_responce_recveve(&Response::UpdateClip { timeline_id: 5 }).err(), Some(HostError::InvalidTimeline));
}

#[test]
fn stream_messages_reach_only_known_players() {
    let mut s = ClientSession::new();
    assert!(s.on_responce_recveve(&Response::StreamData { resource_id: 2 }).ok().unwrap().is_empty());
    let r = s.on_responce_recveve(&Response::StreamMetadata { resource_id: 2, path: "/a.mp4".to_string() }).ok().unwrap();
    assert!(matches!(&r[..], [ClientAction::CreatePlayer { resource_id: 2, path }] if path == "/a.mp4"));
    s.player_created("/a.mp4".to_string(), 2);
    assert!(matches!(s.on_responce_recveve(&Response::StreamData { resource_id: 2 }).ok().unwrap()[..], [ClientAction::ProcessPacket(2)]));
    assert!(matches!(s.on_responce_recveve(&Response::StreamDataEnd { resource_id: 2 }).ok().unwrap()[..], [ClientAction::FinishFetch(2)]));
    assert!(matches!(s.on_responce_recveve(&Response::DebugProjectStruct).ok().unwrap()[..], [ClientAction::LogProjects]));
    assert!(s.on_responce_recveve(&Response::Test).ok().unwrap().is_empty());
}

#[test]
fn fetching_a_frame_asks_for_sixty_frames_and_the_visible_clips() {
    let s = session_with_timeline(1);
    let plan = match req_fetch_frame(&s.project, 1, 100, 0, 500) {
        Ok(p) => p,
        Err(_) => panic!("expected a plan"),
    };
    assert_eq!(plan.frames, ViewRange { start: 100, end: 160 });
    assert!(matches!(
        plan.clips_request,
        Request::FetchClipsInRange { timeline_id: 1, range: ViewRange { start: 0, end: 500 } }
    ));
    assert!(matches!(req_fetch_frame(&s.project, 2, 0, 0, 1), Err(FetchFrameError::InvalidTimeline)));
    assert!(matches!(req_fetch_frame(&None, 1, 0, 0, 1), Err(FetchFrameError::ProjectNotFound)));
}
