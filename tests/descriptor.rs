use clog::descriptor::{decode_descriptor, encode_descriptor, ServerInfo};

#[test]
fn descriptor_encoding_is_compact_json() {
    let info = ServerInfo { pid: 4242, port: 2999 };
    assert_eq!(encode_descriptor(&info), b"{\"pid\":4242,\"port\":2999}".to_vec());
}

#[test]
fn descriptor_round_trip() {
    for info in [
        ServerInfo { pid: 0, port: 0 },
        ServerInfo { pid: 7, port: 80 },
        ServerInfo { pid: u32::MAX, port: u16::MAX },
        ServerInfo { pid: 1000000, port: 10000 },
    ] {
        let bytes = encode_descriptor(&info);
        assert_eq!(decode_descriptor(&bytes), Some(info));
    }
}

#[test]
fn descriptor_decodes_largest_values() {
    let got = decode_descriptor(b"{\"pid\":4294967295,\"port\":65535}");
    assert_eq!(got, Some(ServerInfo { pid: 4294967295, port: 65535 }));
}

#[test]
fn malformed_descriptor_is_absent() {
    let cases: [&[u8]; 10] = [
        b"",
        b"{",
        b"{\"pid\":12,\"port\":}",
        b"{\"pid\":,\"port\":80}",
        b"{\"pid\":4294967296,\"port\":80}",
        b"{\"pid\":12,\"port\":65536}",
        b"{\"pid\":012,\"port\":80}",
        b"{\"pid\":12,\"port\":80} ",
        b"{\"pid\":1a,\"port\":80}",
        b"{\"port\":80,\"pid\":12}",
    ];
    for c in cases {
        assert_eq!(decode_descriptor(c), None);
    }
}
