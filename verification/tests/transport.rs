use vts::rules::StoreTelemetryResponse;
use vts::transport::{
    decode_request, decode_response, encode_request, encode_response, frame_request,
    frame_response, map_err, read_request, read_response, reply_for, unframe, Request, Response,
    StoreTelemetry,
};

fn request() -> Request {
    Request::StoreTelemetry(StoreTelemetry {
        principal: vec![1, 2, 3],
        telemetry: vec![88, 0],
        signature: vec![7; 64],
    })
}

fn parts(r: &Request) -> (&Vec<u8>, &Vec<u8>, &Vec<u8>) {
    match r {
        Request::StoreTelemetry(body) => (&body.principal, &body.telemetry, &body.signature),
    }
}

#[test]
fn request_is_what_bincode_writes() {
    let config = bincode::config::standard();
    let ours = encode_request(&request());
    let theirs =
        bincode::encode_to_vec((0u32, vec![1u8, 2, 3], vec![88u8, 0], vec![7u8; 64]), config).unwrap();
    assert_eq!(ours, theirs);
    assert_eq!(ours[..6], [0, 3, 1, 2, 3, 2]);

    // A long run has its length in more than one byte.
    let long = Request::StoreTelemetry(StoreTelemetry {
        principal: vec![],
        telemetry: vec![9; 300],
        signature: vec![],
    });
    let theirs =
        bincode::encode_to_vec((0u32, Vec::<u8>::new(), vec![9u8; 300], Vec::<u8>::new()), config)
            .unwrap();
    assert_eq!(encode_request(&long), theirs);
    let back = decode_request(&theirs).unwrap();
    assert_eq!(parts(&back), parts(&long));
}

#[test]
fn request_round_trip_through_a_frame() {
    let frame = frame_request(&request());
    assert_eq!(*frame.last().unwrap(), 10);
    assert_eq!(frame.len(), encode_request(&request()).len() + 1);
    let back = read_request(&frame).unwrap();
    assert_eq!(parts(&back), parts(&request()));
    // Without the line feed the request is read all the same.
    let back = read_request(&frame[..frame.len() - 1]).unwrap();
    assert_eq!(parts(&back), parts(&request()));
}

#[test]
fn frames_that_hold_no_request() {
    assert_eq!(read_request(&[]).unwrap_err(), "malformed request");
    assert_eq!(read_request(&[10]).unwrap_err(), "malformed request");
    // A variant that is none.
    assert_eq!(read_request(&[1, 0, 0, 0, 10]).unwrap_err(), "malformed request");
    // A run that announces more than there is.
    assert_eq!(read_request(&[0, 5, 1, 2, 10]).unwrap_err(), "malformed request");
    let whole = encode_request(&request());
    assert!(decode_request(&whole[..whole.len() - 1]).is_none());
}

#[test]
fn responses() {
    assert_eq!(encode_response(Response::TurnOn), vec![0]);
    assert_eq!(encode_response(Response::TurnOff), vec![1]);
    assert_eq!(frame_response(Response::TurnOn), vec![0, 10]);
    assert_eq!(frame_response(Response::TurnOff), vec![1, 10]);
    assert_eq!(decode_response(&[0]), Some(Response::TurnOn));
    assert_eq!(decode_response(&[1, 10]), Some(Response::TurnOff));
    assert_eq!(decode_response(&[2]), None);
    assert_eq!(decode_response(&[]), None);
    // A vehicle reads into eight bytes of zeros.
    assert_eq!(read_response(&[1, 10, 0, 0, 0, 0, 0, 0]), Ok(Response::TurnOff));
    assert_eq!(read_response(&[0, 10, 0, 0, 0, 0, 0, 0]), Ok(Response::TurnOn));
    assert_eq!(read_response(&[9, 10, 0, 0, 0, 0, 0, 0]).unwrap_err(), "malformed response");
    assert_eq!(reply_for(StoreTelemetryResponse::On), Response::TurnOn);
    assert_eq!(reply_for(StoreTelemetryResponse::Off), Response::TurnOff);
}

#[test]
fn unframing() {
    assert_eq!(unframe(&[1, 2, 10]), &[1, 2]);
    assert_eq!(unframe(&[1, 2]), &[1, 2]);
    assert_eq!(unframe(&[10, 10]), &[10]);
    assert_eq!(unframe(&[]), &[] as &[u8]);
}

#[test]
fn errors_become_text() {
    assert_eq!(map_err("connection refused"), "connection refused");
    assert_eq!(map_err(17), "17");
    assert_eq!(map_err(std::fmt::Error), std::fmt::Error.to_string());
}

#[test]
fn gateway_reads_the_canisters_answers() {
    let user = vts::principal::Principal::from_slice(&[1, 2]).unwrap();
    assert!(vts::gateway::next_request(Ok(user.clone())) == Ok(Some(user)));
    assert!(vts::gateway::next_request(Err(vts::error::Error::NotFound)) == Ok(None));
    assert!(
        vts::gateway::next_request(Err(vts::error::Error::Unauthorized))
            == Err("failed to decode response".to_string())
    );
    assert_eq!(vts::gateway::upload_outcome(Ok(())), Ok(()));
    assert_eq!(
        vts::gateway::upload_outcome(Err(vts::error::Error::NotFound)),
        Err("failed to upload firmware".to_string())
    );
    assert!(vts::gateway::must_sign("macos"));
    assert!(!vts::gateway::must_sign("linux"));
    assert!(!vts::gateway::must_sign(""));
}
