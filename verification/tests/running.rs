use sigpatch::patch::{PatchError, PatchRule, PatchSet};
use sigpatch::session::{Reply, Request, Session};
use sigpatch::signature::Signature;

fn rules() -> PatchSet {
    let signature = Signature::new(vec![Some(0x11), None, Some(0x33)]).unwrap();
    vec![PatchRule::new(signature, vec![0xAA, 0xBB]).unwrap()]
}

fn target() -> String {
    "C:\\Resolve\\Resolve.exe".to_string()
}

#[test]
fn run_without_target_ends_at_once() {
    let (session, request) = Session::start(None);
    assert_eq!(request, Request::Finish(Err(PatchError::NotFound)));
    let (_, request) = session.advance(Reply::Done(true), &rules());
    assert_eq!(request, Request::Finish(Err(PatchError::NotFound)));
}

#[test]
fn run_reads_backs_up_and_replaces_in_that_order() {
    let (session, request) = Session::start(Some(target()));
    assert_eq!(request, Request::ReadImage { path: target() });
    let (session, request) =
        session.advance(Reply::Image(Some(vec![0x11, 0x22, 0x33, 0x44])), &rules());
    assert_eq!(
        request,
        Request::Backup { from: target(), to: "C:\\Resolve\\Resolve.exe.bak".to_string() }
    );
    let (session, request) = session.advance(Reply::Done(true), &rules());
    assert_eq!(
        request,
        Request::Replace { path: target(), bytes: vec![0xAA, 0xBB, 0x33, 0x44] }
    );
    let (session, request) = session.advance(Reply::Done(true), &rules());
    assert_eq!(request, Request::Finish(Ok(())));
    let (_, request) = session.advance(Reply::Done(false), &rules());
    assert_eq!(request, Request::Finish(Ok(())));
}

#[test]
fn unreadable_target_counts_as_not_found() {
    let (session, _) = Session::start(Some(target()));
    let (_, request) = session.advance(Reply::Image(None), &rules());
    assert_eq!(request, Request::Finish(Err(PatchError::NotFound)));
}

#[test]
fn ambiguous_image_is_neither_backed_up_nor_replaced() {
    let (session, _) = Session::start(Some(target()));
    let image = vec![0x11, 0x22, 0x33, 0x44, 0x11, 0x22, 0x33, 0x44];
    let (session, request) = session.advance(Reply::Image(Some(image)), &rules());
    assert_eq!(request, Request::Finish(Err(PatchError::AmbiguousSignature(2))));
    let (_, request) = session.advance(Reply::Done(true), &rules());
    assert_eq!(request, Request::Finish(Err(PatchError::AmbiguousSignature(2))));
}

#[test]
fn patched_target_is_left_alone() {
    let (session, _) = Session::start(Some(target()));
    let (_, request) = session.advance(Reply::Image(Some(vec![0xAA, 0xBB, 0x33, 0x44])), &rules());
    assert_eq!(request, Request::Finish(Err(PatchError::NoApplicablePatch)));
}

#[test]
fn failed_backup_leaves_the_target_untouched() {
    let (session, _) = Session::start(Some(target()));
    let (session, _) = session.advance(Reply::Image(Some(vec![0x11, 0x22, 0x33, 0x44])), &rules());
    let (session, request) = session.advance(Reply::Done(false), &rules());
    assert_eq!(request, Request::Finish(Err(PatchError::BackupFailed)));
    let (_, request) = session.advance(Reply::Done(true), &rules());
    assert_eq!(request, Request::Finish(Err(PatchError::BackupFailed)));
}

#[test]
fn failed_replacement_is_reported() {
    let (session, _) = Session::start(Some(target()));
    let (session, _) = session.advance(Reply::Image(Some(vec![0x11, 0x22, 0x33, 0x44])), &rules());
    let (session, _) = session.advance(Reply::Done(true), &rules());
    let (_, request) = session.advance(Reply::Done(false), &rules());
    assert_eq!(request, Request::Finish(Err(PatchError::WriteFailed)));
}

#[test]
fn reply_of_the_wrong_kind_counts_as_a_failure() {
    let (session, _) = Session::start(Some(target()));
    let (_, request) = session.advance(Reply::Done(true), &rules());
    assert_eq!(request, Request::Finish(Err(PatchError::NotFound)));
    let (session, _) = Session::start(Some(target()));
    let (session, _) = session.advance(Reply::Image(Some(vec![0x11, 0x22, 0x33, 0x44])), &rules());
    let (_, request) = session.advance(Reply::Image(None), &rules());
    assert_eq!(request, Request::Finish(Err(PatchError::BackupFailed)));
}
