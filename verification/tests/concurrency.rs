use msgr::{frame_message, Connection, ConnectionState, Delivery, Message, MessageContent, Verdict};
use tokio::io::{AsyncRead, AsyncReadExt, AsyncWrite, AsyncWriteExt};

const MAX_FRAME_LEN: u32 = 1024;

fn numbered(from: u64, count: u64) -> Vec<Message> {
    (0..count)
        .map(|n| Message {
            sender: from,
            recipient: n,
            content: Some(MessageContent { contents: format!("{} says {}", from, "z".repeat(n as usize % 40)) }),
        })
        .collect()
}

async fn send_all<W>(mut write: W, messages: Vec<Message>)
where
    W: AsyncWrite + Unpin,
{
    for m in &messages {
        let frame = frame_message(m, MAX_FRAME_LEN).unwrap();
        write.write_all(&frame).await.unwrap();
    }
    write.shutdown().await.unwrap();
}

async fn read_all<R>(mut read: R) -> Vec<Message>
where
    R: AsyncRead + Unpin,
{
    let mut connection = Connection::new(MAX_FRAME_LEN);
    connection.established();
    let mut buf = [0u8; 7];
    let mut got = Vec::new();
    loop {
        let n = read.read(&mut buf).await.unwrap();
        let reception = connection.receive(&buf[..n]);
        for delivery in reception.deliveries {
            match delivery {
                Delivery::Message(m) => got.push(m),
                Delivery::Undecodable => panic!("a frame did not decode"),
            }
        }
        match reception.verdict {
            Verdict::Continue => {}
            Verdict::PeerClosed => break,
            other => panic!("the connection ended with {:?}", other),
        }
    }
    assert_eq!(connection.state(), ConnectionState::Closed);
    got
}

#[test]
fn both_directions_deliver_every_message() {
    let runtime = tokio::runtime::Builder::new_multi_thread()
        .worker_threads(2)
        .enable_all()
        .build()
        .unwrap();
    runtime.block_on(async {
        // a small pipe, so that each writer has to wait for its reader
        let (near, far) = tokio::io::duplex(16);
        let (near_read, near_write) = tokio::io::split(near);
        let (far_read, far_write) = tokio::io::split(far);
        let outbound = numbered(1, 200);
        let inbound = numbered(2, 150);
        let sending = tokio::spawn(send_all(near_write, outbound.clone()));
        let answering = tokio::spawn(send_all(far_write, inbound.clone()));
        let at_far = tokio::spawn(read_all(far_read));
        let at_near = tokio::spawn(read_all(near_read));
        sending.await.unwrap();
        answering.await.unwrap();
        assert_eq!(at_far.await.unwrap(), outbound);
        assert_eq!(at_near.await.unwrap(), inbound);
    });
}
