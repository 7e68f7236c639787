use bbqueue::{BBBuffer, Consumer, Producer};
use transmission::error::{DecodeError, TransportError};
use transmission::receive::{
    decode, find_package_end, is_at_package_start, receive, skip_to_package_start,
};
use transmission::send::{encode, encode_frame, send, setup};

fn write_data<const N: usize>(prod: &mut Producer<'_, N>, data: &[u8]) {
    let mut grant = prod.grant_exact(data.len()).unwrap();
    grant.buf().copy_from_slice(data);
    grant.commit(data.len());
}

fn buffered<const N: usize>(cons: &mut Consumer<'_, N>) -> (Vec<u8>, Vec<u8>) {
    match cons.split_read() {
        Ok(grant) => {
            let (first, second) = grant.bufs();
            let r = (first.to_vec(), second.to_vec());
            grant.release(0);
            r
        }
        Err(_) => (Vec::new(), Vec::new()),
    }
}

fn assert_buffered<const N: usize>(cons: &mut Consumer<'_, N>, expected: &[u8]) {
    let (first, second) = buffered(cons);
    assert_eq!(first, expected);
    assert_eq!(second, Vec::<u8>::new());
}

// Payloads in postcard's encoding of the message enum used by the examples:
// the variant index as a varint, then the fields in order.
fn msg(text: &str) -> Vec<u8> {
    postcard::to_allocvec(&(0u32, text)).unwrap()
}

fn test1(value: u32) -> Vec<u8> {
    postcard::to_allocvec(&(1u32, value)).unwrap()
}

fn test2(value: f32, flag: u8) -> Vec<u8> {
    postcard::to_allocvec(&(2u32, value, flag)).unwrap()
}

fn data(timestamp: u32, bytes: [u8; 16]) -> Vec<u8> {
    postcard::to_allocvec(&(3u32, timestamp, bytes)).unwrap()
}

#[test]
fn test_transmission() {
    {
        let buf: BBBuffer<128> = BBBuffer::new();
        let (mut prod, mut cons) = buf.try_split().unwrap();

        setup(&mut prod).unwrap();
        send(&mut prod, &test1(18)).unwrap();
        assert_eq!(receive(&mut cons), Some(Ok(test1(18))));

        assert_buffered(&mut cons, &[0]);
    }
    {
        let buf: BBBuffer<128> = BBBuffer::new();
        let (mut prod, mut cons) = buf.try_split().unwrap();

        setup(&mut prod).unwrap();
        send(&mut prod, &test1(18)).unwrap();
        send(&mut prod, &test2(1.25, 0)).unwrap();
        assert_eq!(receive(&mut cons), Some(Ok(test1(18))));

        send(&mut prod, &msg("Hallo!!!")).unwrap();

        let second = receive(&mut cons).unwrap().unwrap();
        assert_eq!(second, test2(1.25, 0));
        assert_eq!(postcard::from_bytes::<(u32, f32, u8)>(&second).unwrap(), (2, 1.25, 0));
        let third = receive(&mut cons).unwrap().unwrap();
        assert_eq!(postcard::from_bytes::<(u32, &str)>(&third).unwrap(), (0, "Hallo!!!"));

        assert_buffered(&mut cons, &[0]);
    }
}

#[test]
fn test_decode_1() {
    assert_eq!(decode(&[3, 1, 18, 0]), Ok(test1(18)));
    assert_eq!(decode(&[2, 2, 1, 4, 64, 63, 13, 0]), Ok(test2(0.75, 13)));
    assert_eq!(decode(&[1, 7, 5, 72, 101, 108, 108, 111, 0]), Ok(msg("Hello")));
    assert_eq!(
        decode(&[1, 10, 8, 80, 65, 78, 73, 67, 33, 33, 33, 0]),
        Ok(msg("PANIC!!!"))
    );
}

fn receive_from(data: &[u8]) -> (Option<Result<Vec<u8>, DecodeError>>, Vec<u8>) {
    let buf: BBBuffer<32> = BBBuffer::new();
    let (mut prod, mut cons) = buf.try_split().unwrap();
    write_data(&mut prod, data);
    let r = receive(&mut cons);
    let (first, second) = buffered(&mut cons);
    assert!(second.is_empty());
    (r, first)
}

#[test]
fn test_receive_1() {
    assert_eq!(receive_from(&[0, 4, 3, 1, 18, 0]), (Some(Ok(test1(18))), vec![0]));
    assert_eq!(
        receive_from(&[0, 11, 1, 10, 8, 80, 65, 78, 73, 67, 33, 33, 33, 0]),
        (Some(Ok(msg("PANIC!!!"))), vec![0])
    );
    assert_eq!(
        receive_from(&[1, 1, 0, 0, 0, 4, 3, 1, 18, 0]),
        (Some(Ok(test1(18))), vec![0])
    );
    assert_eq!(receive_from(&[99, 4, 3, 1, 18, 0]), (None, vec![0]));
}

#[test]
fn test_skip_to_package_start_1() {
    let buf: BBBuffer<32> = BBBuffer::new();
    let (mut prod, mut cons) = buf.try_split().unwrap();

    skip_to_package_start(&mut cons);
    assert!(cons.read().is_err());

    write_data(&mut prod, &[1, 2, 3, 4, 0, 1]);

    skip_to_package_start(&mut cons);
    assert_buffered(&mut cons, &[0, 1]);

    skip_to_package_start(&mut cons);
    assert_buffered(&mut cons, &[0, 1]);
}

#[test]
fn test_skip_to_package_start_2() {
    let buf: BBBuffer<32> = BBBuffer::new();
    let (mut prod, mut cons) = buf.try_split().unwrap();

    write_data(&mut prod, &[1, 2, 0, 0, 0]);

    skip_to_package_start(&mut cons);
    assert_buffered(&mut cons, &[0]);

    write_data(&mut prod, &[0, 5, 6]);

    skip_to_package_start(&mut cons);
    assert_buffered(&mut cons, &[0, 5, 6]);
}

#[test]
fn test_find_package_end() {
    let buf: BBBuffer<32> = BBBuffer::new();
    let (mut prod, mut cons) = buf.try_split().unwrap();

    write_data(&mut prod, &[0, 1, 2, 0, 1]);

    assert_eq!(find_package_end(&mut cons), Some(3));
}

fn starts_package(data: &[u8]) -> bool {
    let buf: BBBuffer<32> = BBBuffer::new();
    let (mut prod, mut cons) = buf.try_split().unwrap();
    write_data(&mut prod, data);
    is_at_package_start(&mut cons)
}

#[test]
fn test_is_package_start() {
    assert_eq!(starts_package(&[0]), false);
    assert_eq!(starts_package(&[1]), false);
    assert_eq!(starts_package(&[0, 1]), true);
    assert_eq!(starts_package(&[1, 1]), false);
    assert_eq!(starts_package(&[1, 0]), false);
    assert_eq!(starts_package(&[0, 0]), false);
    assert_eq!(starts_package(&[0, 0, 1]), false);
    assert_eq!(starts_package(&[0, 2, 3]), true);
}

#[test]
fn test_encode_1() {
    assert_eq!(encode(&test1(18)), vec![3, 1, 18, 0]);
    assert_eq!(encode(&test2(0.75, 13)), vec![2, 2, 1, 4, 64, 63, 13, 0]);
    assert_eq!(encode(&msg("Hello")), vec![1, 7, 5, 72, 101, 108, 108, 111, 0]);
    assert_eq!(
        encode(&msg("PANIC!!!")),
        vec![1, 10, 8, 80, 65, 78, 73, 67, 33, 33, 33, 0]
    );
    assert_eq!(
        encode(&data(123, [1, 2, 3, 4, 5, 6, 7, 8, 9, 10, 11, 12, 13, 14, 15, 16])),
        vec![19, 3, 123, 1, 2, 3, 4, 5, 6, 7, 8, 9, 10, 11, 12, 13, 14, 15, 16, 0]
    );
}

#[test]
fn test_send_1() {
    let buf: BBBuffer<32> = BBBuffer::new();
    let (mut prod, mut cons) = buf.try_split().unwrap();

    send(&mut prod, &test1(18)).unwrap();

    let (buf1, buf2) = buffered(&mut cons);
    assert_eq!(
        buf1[0],
        buf1.len() as u8 - 1,
        "first byte should be the length of the message"
    );
    assert_eq!(*buf1.last().unwrap(), 0u8, "last byte should be the seperator");
    assert_eq!(buf1, vec![4, 3, 1, 18, 0]);
    assert_eq!(buf2, Vec::<u8>::new());
}

#[test]
fn test_send_2() {
    let buf: BBBuffer<32> = BBBuffer::new();
    let (mut prod, mut cons) = buf.try_split().unwrap();

    send(&mut prod, &msg("STS1")).unwrap();

    let (buf1, buf2) = buffered(&mut cons);
    assert_eq!(
        buf1[0],
        buf1.len() as u8 - 1,
        "first byte should be the length of the message"
    );
    assert_eq!(*buf1.last().unwrap(), 0u8, "last byte should be the seperator");
    assert_eq!(buf1, vec![8, 1, 6, 4, 83, 84, 83, 49, 0]);
    assert_eq!(buf2, Vec::<u8>::new());
}

#[test]
fn test_send_3() {
    let buf: BBBuffer<32> = BBBuffer::new();
    let (mut prod, mut cons) = buf.try_split().unwrap();

    send(&mut prod, &test1(128)).unwrap();
    send(&mut prod, &test2(1.0, 123)).unwrap();

    let (buf1, buf2) = buffered(&mut cons);
    assert_eq!(buf1, vec![5, 4, 1, 128, 1, 0, 8, 2, 2, 1, 4, 128, 63, 123, 0]);
    assert_eq!(buf2, Vec::<u8>::new());
}

#[test]
fn test_transmission_one_packet() {
    let buf: BBBuffer<128> = BBBuffer::new();
    let (mut prod, mut cons) = buf.try_split().unwrap();

    setup(&mut prod).unwrap();
    send(&mut prod, &test1(18)).unwrap();

    assert_eq!(receive(&mut cons), Some(Ok(test1(18))));
    assert_buffered(&mut cons, &[0]);
}

#[test]
fn test_transmission_multiple_packets() {
    let buf: BBBuffer<128> = BBBuffer::new();
    let (mut prod, mut cons) = buf.try_split().unwrap();

    setup(&mut prod).unwrap();
    send(&mut prod, &test1(10)).unwrap();
    send(&mut prod, &test1(20)).unwrap();
    assert_eq!(receive(&mut cons), Some(Ok(test1(10))));
    send(&mut prod, &test1(30)).unwrap();
    assert_eq!(receive(&mut cons), Some(Ok(test1(20))));
    assert_eq!(receive(&mut cons), Some(Ok(test1(30))));

    assert_buffered(&mut cons, &[0]);
}

#[test]
fn test_transmission_buffer_already_has_bad_data() {
    let buf: BBBuffer<128> = BBBuffer::new();
    let (mut prod, mut cons) = buf.try_split().unwrap();

    // Without a zero buffered there is nothing to resynchronize on, so
    // nothing is consumed.
    write_data(&mut prod, &[31, 26, 23]);
    assert_eq!(receive(&mut cons), None);
    assert_buffered(&mut cons, &[31, 26, 23]);

    write_data(&mut prod, &[0, 0, 0]);
    assert_eq!(receive(&mut cons), None);
    assert_buffered(&mut cons, &[0]);

    setup(&mut prod).unwrap();
    assert_eq!(receive(&mut cons), None);
    assert_buffered(&mut cons, &[0]);

    send(&mut prod, &test1(10)).unwrap();
    assert_eq!(receive(&mut cons), Some(Ok(test1(10))));

    assert_buffered(&mut cons, &[0]);
}

#[test]
fn test_transmission_drop_bad_packet() {
    let buf: BBBuffer<128> = BBBuffer::new();
    let (mut prod, mut cons) = buf.try_split().unwrap();

    write_data(&mut prod, &[0, 31, 26, 23, 0, 0, 0]);

    assert_eq!(receive(&mut cons), Some(Err(DecodeError)));
    assert_buffered(&mut cons, &[0, 0, 0]);

    setup(&mut prod).unwrap();
    assert_eq!(receive(&mut cons), None);
    assert_buffered(&mut cons, &[0]);

    send(&mut prod, &test1(10)).unwrap();
    assert_eq!(receive(&mut cons), Some(Ok(test1(10))));

    assert_buffered(&mut cons, &[0]);
}
