use vb_manager::websocket::{document_reply, update_reply};
use yrs::updates::encoder::Encode;
use yrs::{ReadTxn, Transact};
use vb_manager::websocket::{
    document_not_found, frame_error_reply, join_clients, leave_clients, ClientSession, Frame,
    MessageKind, SessionEvent, SessionPlan, WebsocketDecodeEncodeError,
};

#[test]
fn frames_start_with_their_identifier_byte() {
    let f = Frame { kind: MessageKind::Connect, payload: b"{}".to_vec() };
    assert_eq!(f.into_bytes(), vec![10, b'{', b'}']);
    let u = Frame { kind: MessageKind::DocUpdate, payload: vec![1, 2, 3] };
    assert_eq!(u.into_bytes(), vec![30, 1, 2, 3]);
    let ack = Frame { kind: MessageKind::ReceivedDocUpdate, payload: vec![9] };
    assert_eq!(ack.into_bytes(), vec![31]);
    let e = Frame { kind: MessageKind::Error, payload: vec![] };
    assert_eq!(e.into_bytes(), vec![60]);
}

#[test]
fn frames_are_read_back() {
    let kinds = [
        MessageKind::Connect,
        MessageKind::Welcome,
        MessageKind::GetDoc,
        MessageKind::DocUpdate,
        MessageKind::SetCursor,
        MessageKind::RemoveCursor,
        MessageKind::Disconnect,
        MessageKind::Error,
    ];
    for k in kinds {
        let f = Frame { kind: k, payload: vec![7, 8] };
        assert_eq!(Frame::try_from_bytes(&f.into_bytes()), Ok(f.clone()));
    }
    let ack = Frame::try_from_bytes(&vec![31, 1, 2]).unwrap();
    assert_eq!(ack, Frame { kind: MessageKind::ReceivedDocUpdate, payload: vec![] });
}

#[test]
fn unreadable_frames_are_reported() {
    assert_eq!(Frame::try_from_bytes(&vec![]), Err(WebsocketDecodeEncodeError::EmptyMessage));
    assert_eq!(Frame::try_from_bytes(&vec![99, 1]), Err(WebsocketDecodeEncodeError::UnknownMessageType));
    let r = frame_error_reply(WebsocketDecodeEncodeError::EmptyMessage);
    assert_eq!((r.status, r.error.as_str()), (400, "Empty message"));
    let r = frame_error_reply(WebsocketDecodeEncodeError::UnknownMessageType);
    assert_eq!((r.status, r.error.as_str()), (400, "Unknown message type"));
    let nf = document_not_found();
    assert_eq!(nf.status, 404);
    assert_eq!(
        nf.error,
        "Document not found. Make sure you connect first and provide a valid document id."
    );
}

#[test]
fn sessions_decide_per_message() {
    let mut s = ClientSession::new(5);
    assert_eq!(s.step(SessionEvent::GetDoc), SessionPlan::NotFound);
    assert_eq!(s.step(SessionEvent::DocUpdate), SessionPlan::Acknowledge);
    assert_eq!(s.step(SessionEvent::SetCursor), SessionPlan::Nothing);
    assert_eq!(s.step(SessionEvent::Disconnect), SessionPlan::Nothing);
    assert_eq!(s.step(SessionEvent::Connect { document_id: 77 }), SessionPlan::Join { document_id: 77 });
    assert_eq!(s, ClientSession { client_id: 5, document_id: Some(77) });
    assert_eq!(s.step(SessionEvent::GetDoc), SessionPlan::SendDocument { document_id: 77 });
    assert_eq!(s.step(SessionEvent::DocUpdate), SessionPlan::ApplyUpdate { document_id: 77 });
    assert_eq!(s.step(SessionEvent::RemoveCursor), SessionPlan::ForwardCursor { document_id: 77 });
    assert_eq!(s.step(SessionEvent::Other), SessionPlan::Nothing);
    assert_eq!(s.step(SessionEvent::Disconnect), SessionPlan::Leave { document_id: 77 });
    assert_eq!(s, ClientSession { client_id: 5, document_id: None });
}

#[test]
fn leaving_removes_only_the_client() {
    let mut clients = vec![1u128, 2, 1, 3];
    join_clients(&mut clients, 4);
    assert_eq!(clients, vec![1, 2, 1, 3, 4]);
    assert!(!leave_clients(&mut clients, 1));
    assert_eq!(clients, vec![2, 3, 4]);
    let mut last = vec![5u128];
    assert!(leave_clients(&mut last, 5));
    assert!(last.is_empty());
}

#[test]
fn document_requests_decode_the_state_vector_first() {
    let empty_sv = yrs::StateVector::default().encode_v1();
    let bad = document_reply(None, &[0xff, 0xff, 0xff]).unwrap_err();
    assert_eq!(bad.status, 400);
    assert!(bad.error.starts_with("Failed to decode StateVector: "));
    let missing = document_reply(None, &empty_sv).unwrap_err();
    assert_eq!(missing.status, 404);
    let doc = yrs::Doc::new();
    let text = doc.get_or_insert_text("t");
    {
        let mut txn = doc.transact_mut();
        yrs::Text::push(&text, &mut txn, "shared");
    }
    let diff = document_reply(Some(&doc), &empty_sv).unwrap();
    let copy = yrs::Doc::new();
    assert_eq!(update_reply(Some(&copy), &diff), Ok(()));
    let t = copy.get_or_insert_text("t");
    assert_eq!(yrs::GetString::get_string(&t, &copy.transact()), "shared");
}

#[test]
fn updates_are_applied_to_the_loaded_document() {
    let source = yrs::Doc::new();
    let text = source.get_or_insert_text("t");
    {
        let mut txn = source.transact_mut();
        yrs::Text::push(&text, &mut txn, "hello");
    }
    let update = source.transact().encode_state_as_update_v1(&yrs::StateVector::default());
    let target = yrs::Doc::new();
    assert_eq!(update_reply(Some(&target), &update), Ok(()));
    let t = target.get_or_insert_text("t");
    assert_eq!(yrs::GetString::get_string(&t, &target.transact()), "hello");
    let bad = update_reply(Some(&target), &[0xff, 0xff, 0xff]).unwrap_err();
    assert_eq!(bad.status, 400);
    assert!(bad.error.starts_with("Failed to decode update: "));
    assert_eq!(update_reply(None, &update).unwrap_err().status, 404);
}
