use rand::{Rng, SeedableRng};
use rand_chacha::ChaCha8Rng;

use openworld::transport::sudoku::conn::{pick_padding_threshold, permuted_hints, should_pad, SudokuDecoder};
use openworld::transport::sudoku::crypto::{check_frame_len, AeadKind, SudokuAead};
use openworld::transport::sudoku::grid::generate_all_grids;
use openworld::transport::sudoku::handshake::{encode_address, handshake_payload_at};
use openworld::transport::sudoku::httpmask::{header_progress, looks_like_http_request, mask_path, mask_request_bytes, HeaderProgress};
use openworld::transport::sudoku::layout::{new_ascii_layout, new_custom_layout, new_entropy_layout, resolve_layout};
use openworld::transport::sudoku::table::{generate_combinations, pack_hints_to_key, Table};

#[test]
fn generates_288_grids() {
    let grids = generate_all_grids();
    assert_eq!(grids.len(), 288);
}

#[test]
fn all_grids_are_valid() {
    let grids = generate_all_grids();
    for grid in &grids {
        for row in 0..4 {
            let mut seen = [false; 5];
            for col in 0..4 {
                let v = grid[row * 4 + col] as usize;
                assert!(v >= 1 && v <= 4);
                assert!(!seen[v]);
                seen[v] = true;
            }
        }
        for col in 0..4 {
            let mut seen = [false; 5];
            for row in 0..4 {
                let v = grid[row * 4 + col] as usize;
                assert!(!seen[v]);
                seen[v] = true;
            }
        }
        for br in (0..4).step_by(2) {
            for bc in (0..4).step_by(2) {
                let mut seen = [false; 5];
                for r in 0..2 {
                    for c in 0..2 {
                        let v = grid[(br + r) * 4 + (bc + c)] as usize;
                        assert!(!seen[v]);
                        seen[v] = true;
                    }
                }
            }
        }
    }
}

#[test]
fn all_grids_are_unique() {
    let grids = generate_all_grids();
    for i in 0..grids.len() {
        for j in (i + 1)..grids.len() {
            assert_ne!(grids[i], grids[j]);
        }
    }
}

#[test]
fn grids_come_in_lexicographic_order() {
    let grids = generate_all_grids();
    for w in grids.windows(2) {
        assert!(w[0] < w[1]);
    }
    assert_eq!(grids[0], [1, 2, 3, 4, 3, 4, 1, 2, 2, 1, 4, 3, 4, 3, 2, 1]);
}

#[test]
fn ascii_layout_all_hints_printable() {
    let layout = new_ascii_layout();
    for val in 0..4u8 {
        for pos in 0..16u8 {
            let b = layout.encode_hint(val, pos);
            assert!(layout.is_hint(b));
            assert!((b >= 0x20 && b <= 0x7E) || b == b'\n');
        }
    }
}

#[test]
fn entropy_layout_bit_pattern() {
    let layout = new_entropy_layout();
    for val in 0..4u8 {
        for pos in 0..16u8 {
            let b = layout.encode_hint(val, pos);
            assert!(layout.is_hint(b));
            assert_eq!(b & 0x90, 0x00);
        }
    }
}

#[test]
fn padding_not_detected_as_hint() {
    for layout in [new_ascii_layout(), new_entropy_layout()] {
        for &pad in &layout.padding_pool {
            assert!(!layout.is_hint(pad), "{}: padding 0x{:02X}", layout.name, pad);
        }
    }
}

#[test]
fn custom_layout_from_pattern() {
    let layout = new_custom_layout(" XX pp vvvv ").unwrap();
    assert_eq!(layout.hint_mask, 0xC0);
    assert_eq!(layout.encode_hint(3, 15), 0xFF);
    assert_eq!(layout.encode_hint(0, 0), 0xC0);
    assert!(layout.is_hint(layout.encode_hint(2, 5)));
    for &pad in &layout.padding_pool {
        assert!(!layout.is_hint(pad));
        assert!(pad.count_ones() >= 5);
    }
    assert!(new_custom_layout("xxppvvv").is_err());
    assert!(new_custom_layout("xxppvvvq").is_err());
    assert!(new_custom_layout("xxxpvvvv").is_err());
    assert!(resolve_layout("PREFER_ASCII", "").unwrap().is_ascii);
    assert_eq!(resolve_layout("", "xpxpvvvv").unwrap().name, "custom");
    assert_eq!(resolve_layout("entropy", "  ").unwrap().name, "entropy");
    assert!(resolve_layout("other", "").is_err());
}

#[test]
fn table_builds_successfully() {
    let table = Table::new("test-key", "prefer_ascii", "").unwrap();
    for enc in table.encode_table.iter() {
        assert!(!enc.is_empty());
    }
}

#[test]
fn encode_decode_roundtrip_ascii() {
    let table = Table::new("test-key-roundtrip", "prefer_ascii", "").unwrap();
    let mut rng = ChaCha8Rng::seed_from_u64(42);
    for byte_val in 0..=255u8 {
        let idx = rng.gen_range(0..table.encode_table[byte_val as usize].len());
        let hints = table.encode_byte(byte_val, idx);
        assert_eq!(table.decode_hints(hints), Some(byte_val));
    }
}

#[test]
fn encode_decode_roundtrip_entropy() {
    let table = Table::new("test-key-entropy", "prefer_entropy", "").unwrap();
    let mut rng = ChaCha8Rng::seed_from_u64(42);
    for byte_val in 0..=255u8 {
        let idx = rng.gen_range(0..table.encode_table[byte_val as usize].len());
        let hints = table.encode_byte(byte_val, idx);
        assert_eq!(table.decode_hints(hints), Some(byte_val));
    }
}

#[test]
fn combinations_count() {
    let combos = generate_combinations(16, 4);
    assert_eq!(combos.len(), 1820);
}

#[test]
fn pack_hints_order_independent() {
    let a = pack_hints_to_key([0x41, 0x52, 0x63, 0x74]);
    let b = pack_hints_to_key([0x74, 0x63, 0x52, 0x41]);
    let c = pack_hints_to_key([0x52, 0x41, 0x74, 0x63]);
    assert_eq!(a, b);
    assert_eq!(b, c);
    assert_eq!(a, 0x41526374);
}

#[test]
fn stream_decoding_skips_padding_and_groups_hints() {
    let table = Table::new("stream-key", "prefer_ascii", "").unwrap();
    let mut wire = Vec::new();
    for (i, b) in b"hi!".iter().enumerate() {
        wire.push(0x20);
        wire.extend_from_slice(&permuted_hints(table.encode_byte(*b, 0), i * 5));
    }
    let mut dec = SudokuDecoder::new();
    let first = dec.feed(&table, &wire[..7]).unwrap();
    assert_eq!(first, b"h".to_vec());
    let rest = dec.feed(&table, &wire[7..]).unwrap();
    assert_eq!(rest, b"i!".to_vec());
    assert!(dec.hint_buf.is_empty());
}

#[test]
fn padding_threshold_and_choice() {
    assert_eq!(pick_padding_threshold(10, 0), 0);
    assert_eq!(pick_padding_threshold(10, 30), (u64::MAX / 100) * 20);
    assert!(!should_pad(0, 0));
    assert!(should_pad(10, 9));
    assert!(!should_pad(10, 10));
    assert_eq!(permuted_hints([1, 2, 3, 4], 0), [1, 2, 3, 4]);
    assert_eq!(permuted_hints([1, 2, 3, 4], 23), [4, 3, 2, 1]);
    assert_eq!(permuted_hints([1, 2, 3, 4], 9), [2, 3, 4, 1]);
}

#[test]
fn aead_frames_roundtrip() {
    let mut a = SudokuAead::new("material", "chacha20-poly1305").unwrap();
    let mut b = SudokuAead::new("material", "chacha20-poly1305").unwrap();
    assert_eq!(a.kind, AeadKind::ChaCha20Poly1305);
    let (frame, n) = a.seal(b"payload");
    assert_eq!(n, 7);
    let len = check_frame_len([frame[0], frame[1]]).unwrap();
    assert_eq!(len, 7 + 16);
    assert_eq!(b.open(&frame[2..]).unwrap(), b"payload".to_vec());
    assert!(b.open(&frame[2..]).is_err());
    let mut p = SudokuAead::new("m", "none").unwrap();
    let (frame, _) = p.seal(b"xy");
    assert_eq!(frame, vec![0, 2, b'x', b'y']);
    assert!(SudokuAead::new("m", "rc4").is_err());
    assert!(check_frame_len([0, 0]).is_err());
    assert!(check_frame_len([0x40, 0x51]).is_err());
    let big = vec![7u8; 20000];
    let mut c = SudokuAead::new("m", "aes-128-gcm").unwrap();
    let (_, n) = c.seal(&big);
    assert_eq!(n, 16384);
}

#[test]
fn handshake_payload_format() {
    let payload = handshake_payload_at(1_700_000_000, "test-key");
    assert_eq!(payload.len(), 16);
    let ts = u64::from_be_bytes(payload[..8].try_into().unwrap());
    assert_eq!(ts, 1_700_000_000);
}

#[test]
fn encode_domain_address() {
    let bytes = encode_address("example.com", 443);
    assert_eq!(bytes[0], 0x03);
    assert_eq!(bytes[1], 11);
    assert_eq!(&bytes[2..13], b"example.com");
    assert_eq!(u16::from_be_bytes([bytes[13], bytes[14]]), 443);
}

#[test]
fn encode_ipv4_address() {
    let bytes = encode_address("127.0.0.1", 8080);
    assert_eq!(bytes[0], 0x01);
    assert_eq!(&bytes[1..5], &[127, 0, 0, 1]);
    assert_eq!(u16::from_be_bytes([bytes[5], bytes[6]]), 8080);
}

#[test]
fn encode_ipv6_address() {
    let bytes = encode_address("::1", 53);
    assert_eq!(bytes[0], 0x04);
    assert_eq!(bytes.len(), 1 + 16 + 2);
    assert_eq!(bytes[16], 1);
}

#[test]
fn http_mask_pieces() {
    assert!(looks_like_http_request(b"GET / HTTP/1.1"));
    assert!(looks_like_http_request(b"HEAD"));
    assert!(!looks_like_http_request(b"GE"));
    assert!(!looks_like_http_request(b"\x16\x03\x01\x00"));
    let req = mask_request_bytes("/a/b", "h.example", "UA");
    assert_eq!(
        String::from_utf8(req).unwrap(),
        "GET /a/b HTTP/1.1\r\nHost: h.example\r\nUser-Agent: UA\r\nAccept: */*\r\nConnection: keep-alive\r\n\r\n"
    );
    assert_eq!(mask_path("//root/", "api", "seg1"), "/root/seg1");
    assert_eq!(mask_path("", "cdn", "x9"), "/cdn/x9");
    assert_eq!(header_progress(b"GET / HTTP/1.1\r\n\r\n"), HeaderProgress::Done);
    assert_eq!(header_progress(b"GET / HTTP/1.1\r\n"), HeaderProgress::More);
    assert_eq!(header_progress(&vec![b'a'; 8193]), HeaderProgress::TooLong);
}

#[test]
fn every_encoding_decodes_in_any_order() {
    for (key, mode, pattern) in [("k1", "prefer_ascii", ""), ("k2", "prefer_entropy", ""), ("k3", "entropy", "xppxvvvv")] {
        let table = Table::new(key, mode, pattern).unwrap();
        for b in 0..=255u8 {
            let n = table.encode_table[b as usize].len();
            assert!(n > 0);
            for i in 0..n {
                let h = table.encode_byte(b, i);
                assert_eq!(table.decode_hints(h), Some(b));
                assert_eq!(table.decode_hints([h[3], h[1], h[0], h[2]]), Some(b));
            }
        }
    }
}
