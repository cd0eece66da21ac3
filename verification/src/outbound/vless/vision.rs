//! XTLS Vision: padding of the first packets and detection of TLS records.

use vstd::prelude::*;

use crate::address::push_all;
use crate::bytes_util::{be_bytes, copy_range, find_subsequence, occurs_in, push_be};
use crate::crypto::{fill_random, random_inclusive};

verus! {

pub const COMMAND_PADDING_CONTINUE: u8 = 0x00;
pub const COMMAND_PADDING_END: u8 = 0x01;
pub const COMMAND_PADDING_DIRECT: u8 = 0x02;
pub const TLS_CONTENT_TYPE_HANDSHAKE: u8 = 0x16;
pub const TLS_CONTENT_TYPE_APPLICATION_DATA: u8 = 0x17;
pub const BUF_SIZE: usize = 2048;
pub const PADDING_HEADER_SIZE: usize = 5;
pub const UUID_SIZE: usize = 16;
pub const PACKETS_TO_FILTER: i32 = 8;

/// A TLS 1.2/1.3 application-data record header.
pub open spec fn tls_app_data_spec(data: Seq<u8>) -> bool {
    data.len() >= 5 && data[0] == 0x17 && data[1] == 0x03 && data[2] == 0x03
}

pub fn is_tls_application_data(data: &[u8]) -> (r: bool)
    ensures
        r == tls_app_data_spec(data@),
{
    data.len() >= 5 && data[0] == TLS_CONTENT_TYPE_APPLICATION_DATA && data[1] == 0x03 && data[2] == 0x03
}

/// Whether `needle` occurs in `haystack` (an empty needle has no windows to compare).
pub fn contains_bytes(haystack: &[u8], needle: &[u8]) -> (r: bool)
    requires
        needle@.len() > 0,
    ensures
        r == occurs_in(haystack@, needle@),
{
    find_subsequence(haystack, needle)
}

/// The padding length for `content_len` bytes, given a draw `random` from the range
/// the mode asks for: below 900 bytes with long padding, the draw plus 900 minus the
/// content length, at least 0; otherwise the draw; never more than the frame's room.
pub open spec fn padding_spec(content_len: i32, long_padding: bool, random: i32) -> int {
    let p: int = if content_len < 900 && long_padding {
        if random + 900 - content_len > 0 { random + 900 - content_len } else { 0 }
    } else {
        random as int
    };
    let max: int = 2048 - 5 - 16 - content_len;
    let q = if p < max { p } else { max };
    if q > 0 { q } else { 0 }
}

/// The padding length for a given draw; the draw lies in `0..500` for long padding
/// of short content and in `0..256` otherwise.
pub fn padding_len_with(content_len: i32, long_padding: bool, random: i32) -> (r: usize)
    requires
        0 <= random < 500,
        2048 - 5 - 16 - content_len <= i32::MAX,
    ensures
        r as int == padding_spec(content_len, long_padding, random),
{
    let p: i64 = if content_len < 900 && long_padding {
        let x = random as i64 + 900 - content_len as i64;
        if x > 0 { x } else { 0 }
    } else {
        random as i64
    };
    let max: i64 = 2048 - 5 - 16 - content_len as i64;
    let q = if p < max { p } else { max };
    if q > 0 { q as usize } else { 0 }
}

/// A random padding length for `content_len` bytes of content.
pub fn calculate_padding(content_len: i32, long_padding: bool) -> (r: usize)
    requires
        2048 - 5 - 16 - content_len <= i32::MAX,
    ensures
        exists|random: i32| 0 <= random < (if content_len < 900 && long_padding { 500int } else { 256int })
            && r as int == #[trigger] padding_spec(content_len, long_padding, random),
{
    let bound: i32 = if content_len < 900 && long_padding { 500 } else { 256 };
    let random = random_inclusive(0, (bound - 1) as u64) as i32;
    padding_len_with(content_len, long_padding, random)
}

/// The reading side's state: where in a padded block the next byte falls.
#[derive(Debug, Clone, Copy, PartialEq, Eq, Structural)]
pub struct VisionReadState {
    pub within_padding: bool,
    /// Header bytes still to read (5 down to 1), or -1 before a block.
    pub remaining_command: i32,
    pub remaining_content: i32,
    pub remaining_padding: i32,
    pub current_command: u8,
    pub first_packet: bool,
    pub direct_copy: bool,
}

impl VisionReadState {
    pub fn new() -> (r: Self)
        ensures
            r == initial_read_state(),
    {
        VisionReadState {
            within_padding: true,
            remaining_command: -1,
            remaining_content: -1,
            remaining_padding: -1,
            current_command: 0,
            first_packet: true,
            direct_copy: false,
        }
    }
}

pub open spec fn initial_read_state() -> VisionReadState {
    VisionReadState {
        within_padding: true,
        remaining_command: -1i32,
        remaining_content: -1i32,
        remaining_padding: -1i32,
        current_command: 0,
        first_packet: true,
        direct_copy: false,
    }
}

/// One turn of the unpadding loop on a non-empty `buf`: a header byte, or a run of
/// content (kept) or of padding (dropped); then, at the end of a block, either the
/// next header (after a Continue command) or the end of padding, after which the rest
/// passes through unchanged. Gives the new state, the output, the rest of the buffer
/// and whether the loop stops.
pub open spec fn unpad_turn(st: VisionReadState, buf: Seq<u8>, out: Seq<u8>) -> (VisionReadState, Seq<u8>, Seq<u8>, bool) {
    let (s1, o1, b1) = if st.remaining_command > 0 {
        let byte = buf[0];
        let s = if st.remaining_command == 5 {
            VisionReadState { current_command: byte, ..st }
        } else if st.remaining_command == 4 {
            VisionReadState { remaining_content: (byte as int * 256) as i32, ..st }
        } else if st.remaining_command == 3 {
            VisionReadState { remaining_content: st.remaining_content | byte as i32, ..st }
        } else if st.remaining_command == 2 {
            VisionReadState { remaining_padding: (byte as int * 256) as i32, ..st }
        } else if st.remaining_command == 1 {
            VisionReadState { remaining_padding: st.remaining_padding | byte as i32, ..st }
        } else {
            st
        };
        (VisionReadState { remaining_command: (s.remaining_command - 1) as i32, ..s }, out, buf.drop_first())
    } else if st.remaining_content > 0 {
        let n = if st.remaining_content < buf.len() { st.remaining_content as int } else { buf.len() as int };
        (VisionReadState { remaining_content: (st.remaining_content - n) as i32, ..st }, out + buf.subrange(0, n), buf.subrange(n, buf.len() as int))
    } else if st.remaining_padding > 0 {
        let n = if st.remaining_padding < buf.len() { st.remaining_padding as int } else { buf.len() as int };
        (VisionReadState { remaining_padding: (st.remaining_padding - n) as i32, ..st }, out, buf.subrange(n, buf.len() as int))
    } else {
        (st, out, buf)
    };
    if s1.remaining_command <= 0 && s1.remaining_content <= 0 && s1.remaining_padding <= 0 {
        if s1.current_command == COMMAND_PADDING_CONTINUE {
            (VisionReadState { remaining_command: 5, ..s1 }, o1, b1, false)
        } else {
            let s2 = VisionReadState { remaining_command: -1i32, remaining_content: -1i32, remaining_padding: -1i32, ..s1 };
            let s3 = if s1.current_command == COMMAND_PADDING_DIRECT {
                VisionReadState { direct_copy: true, within_padding: false, ..s2 }
            } else {
                s2
            };
            (s3, o1 + b1, Seq::empty(), true)
        }
    } else {
        (s1, o1, b1, false)
    }
}

/// The unpadding loop: turns until the buffer is empty or padding ends.
pub open spec fn unpad_loop(st: VisionReadState, buf: Seq<u8>, out: Seq<u8>) -> (VisionReadState, Seq<u8>, Seq<u8>)
    decreases buf.len(), if st.remaining_command > 0 { 0int } else { 1int },
{
    if buf.len() == 0 {
        (st, out, buf)
    } else {
        let (s, o, b, stop) = unpad_turn(st, buf, out);
        if stop || !(b.len() < buf.len() || (b.len() == buf.len() && s.remaining_command > 0 && st.remaining_command <= 0)) {
            (s, o, b)
        } else {
            unpad_loop(s, b, o)
        }
    }
}

/// The state before the loop: a first packet must open with the user's id and a
/// full header, or it is not padded at all and passes through.
pub open spec fn unpad_start(st: VisionReadState, uuid: Seq<u8>, buf: Seq<u8>) -> (VisionReadState, Seq<u8>, bool) {
    if st.remaining_command == -1 && st.remaining_content == -1 && st.remaining_padding == -1 {
        if st.first_packet {
            if buf.len() >= 21 && buf.subrange(0, 16) == uuid {
                (VisionReadState { remaining_command: 5, first_packet: false, ..st }, buf.subrange(16, buf.len() as int), false)
            } else {
                (VisionReadState { within_padding: false, ..st }, buf, true)
            }
        } else {
            (VisionReadState { remaining_command: 5, ..st }, buf, false)
        }
    } else {
        (st, buf, false)
    }
}

/// What unpadding `buf` gives: the new state, the data, and what stays buffered.
pub open spec fn unpad(st: VisionReadState, uuid: Seq<u8>, buf: Seq<u8>) -> (VisionReadState, Seq<u8>, Seq<u8>) {
    let (s0, b0, pass) = unpad_start(st, uuid, buf);
    if pass {
        (s0, b0, Seq::empty())
    } else {
        unpad_loop(s0, b0, Seq::empty())
    }
}

/// The TLS state that the first server packets reveal: how much of the ServerHello
/// is still to come, its cipher suite, and whether XTLS may splice.
pub open spec fn filter_tls_spec(
    packets_filtered: i32,
    remaining: i32,
    cipher: u16,
    xtls: bool,
    data: Seq<u8>,
) -> (i32, i32, u16, bool) {
    if packets_filtered <= 0 || data.len() < 6 {
        (packets_filtered, remaining, cipher, xtls)
    } else {
        let is_hello = data[0] == TLS_CONTENT_TYPE_HANDSHAKE && data[1] == 0x03 && data[2] == 0x03 && data[5] == 0x02;
        let rem1: int = if is_hello { data[3] as int * 256 + data[4] as int + 5 } else { remaining as int };
        let off = 43 + data[43] as int + 1;
        let cipher1: u16 = if is_hello && data.len() >= 79 && rem1 >= 79 && off + 2 <= data.len() {
            (data[off] as int * 256 + data[off + 1] as int) as u16
        } else {
            cipher
        };
        let (rem2, xtls2) = if rem1 > 0 {
            let r = rem1 - data.len();
            (r, xtls || (r <= 0 && occurs_in(data, seq![0x00u8, 0x2bu8, 0x00u8, 0x02u8, 0x03u8, 0x04u8]) && cipher1 != 0
                && cipher1 != 0x1305))
        } else {
            (rem1, xtls)
        };
        ((packets_filtered - 1) as i32, rem2 as i32, cipher1, xtls2)
    }
}

/// The Vision layer of a VLESS connection, without the stream it wraps: the
/// writing side's padding state, the reading side's unpadding state and buffer,
/// and what the first TLS packets showed.
pub struct VisionStream {
    pub user_uuid: [u8; 16],
    pub write_padding_active: bool,
    pub write_first_packet: bool,
    pub read_state: VisionReadState,
    pub read_buf: Vec<u8>,
    pub packets_filtered: i32,
    pub enable_xtls: bool,
    pub remaining_server_hello: i32,
    pub cipher: u16,
}

/// A padded frame: the user's id on the first frame, the command, the content and
/// padding lengths (two bytes each, big-endian), the content and the padding.
pub open spec fn padded_frame(uuid: Option<Seq<u8>>, command: u8, data: Seq<u8>, padding: Seq<u8>) -> Seq<u8> {
    (match uuid {
        Some(u) => u,
        None => Seq::empty(),
    }) + seq![command] + be_bytes((data.len() % 65536) as nat, 2) + be_bytes((padding.len() % 65536) as nat, 2) + data
        + padding
}

/// `r` is the padded frame of `data` with some padding whose length `calculate_padding`
/// can draw.
pub open spec fn padded_by_draw(r: Seq<u8>, uuid: Option<Seq<u8>>, command: u8, data: Seq<u8>, long: bool) -> bool {
    exists|padding: Seq<u8>, random: i32|
        #![trigger padding_spec(data.len() as i32, long, random), padded_frame(uuid, command, data, padding)]
        0 <= random < (if data.len() < 900 && long { 500int } else { 256int })
            && padding.len() == padding_spec(data.len() as i32, long, random)
            && r == padded_frame(uuid, command, data, padding)
}

impl VisionStream {
    /// A fresh layer for the user `uuid`.
    pub fn new(uuid: [u8; 16]) -> (r: Self)
        ensures
            r.user_uuid == uuid,
            r.write_padding_active && r.write_first_packet,
            r.read_state == initial_read_state(),
            r.read_buf@.len() == 0,
            r.packets_filtered == PACKETS_TO_FILTER,
            !r.enable_xtls,
            r.remaining_server_hello == -1,
            r.cipher == 0,
    {
        VisionStream {
            user_uuid: uuid,
            write_padding_active: true,
            write_first_packet: true,
            read_state: VisionReadState::new(),
            read_buf: Vec::new(),
            packets_filtered: PACKETS_TO_FILTER,
            enable_xtls: false,
            remaining_server_hello: -1,
            cipher: 0,
        }
    }

    /// Pads `data` into one frame: application data, once XTLS is enabled, goes with
    /// the Direct command and ends padding; everything else goes with Continue; the
    /// first frame carries the user's id; the padding is random, its length drawn as
    /// `calculate_padding` draws it.
    pub fn build_padded_frame(&mut self, data: &[u8]) -> (r: Vec<u8>)
        requires
            data@.len() <= 0x7fff_ffff,
        ensures
            ({
                let direct = tls_app_data_spec(data@) && old(self).enable_xtls;
                let long = old(self).write_padding_active && !direct;
                &&& final(self).write_padding_active == long
                &&& !final(self).write_first_packet
                &&& padded_by_draw(
                    r@,
                    if old(self).write_first_packet { Some(old(self).user_uuid@) } else { None },
                    if direct { COMMAND_PADDING_DIRECT } else { COMMAND_PADDING_CONTINUE },
                    data@,
                    long,
                )
            }),
            final(self).user_uuid == old(self).user_uuid,
            final(self).read_state == old(self).read_state,
            final(self).read_buf@ == old(self).read_buf@,
            final(self).packets_filtered == old(self).packets_filtered,
            final(self).enable_xtls == old(self).enable_xtls,
            final(self).remaining_server_hello == old(self).remaining_server_hello,
            final(self).cipher == old(self).cipher,
    {
        let is_app = is_tls_application_data(data);
        let command = if is_app && self.enable_xtls {
            self.write_padding_active = false;
            COMMAND_PADDING_DIRECT
        } else {
            COMMAND_PADDING_CONTINUE
        };
        let long = self.write_padding_active;
        let padding_len = calculate_padding(data.len() as i32, long);
        let first = self.write_first_packet;
        self.write_first_packet = false;
        let mut padding: Vec<u8> = Vec::new();
        let mut k: usize = 0;
        while k < padding_len
            invariant
                k <= padding_len,
                padding@.len() == k,
            decreases padding_len - k,
        {
            padding.push(0);
            k = k + 1;
        }
        fill_random(padding.as_mut_slice());
        let mut buf: Vec<u8> = Vec::new();
        if first {
            push_all(&mut buf, self.user_uuid.as_slice());
        }
        buf.push(command);
        push_be(&mut buf, (data.len() % 65536) as u64, 2);
        push_be(&mut buf, (padding_len % 65536) as u64, 2);
        push_all(&mut buf, data);
        push_all(&mut buf, padding.as_slice());
        proof {
            let u = if first { Some(old(self).user_uuid@) } else { None };
            assert(buf@ =~= padded_frame(u, command, data@, padding@));
            let content_len = data@.len() as i32;
            assert(content_len as int == data@.len());
            let random = choose|random: i32| 0 <= random < (if content_len < 900 && long { 500int } else { 256int })
                && padding_len as int == #[trigger] padding_spec(content_len, long, random);
            assert(padding@.len() == padding_spec(data@.len() as i32, long, random));
            assert(padded_by_draw(buf@, u, command, data@, long));
        }
        buf
    }

    /// Learns from a packet the server sent: while packets are still filtered, a
    /// ServerHello's length and cipher suite, and, once it has passed, whether it
    /// agreed on TLS 1.3 with a cipher suite that XTLS can splice.
    pub fn filter_tls(&mut self, data: &[u8])
        requires
            data@.len() <= 0x7fff_ffff,
            -1 <= old(self).remaining_server_hello <= 65540,
        ensures
            (final(self).packets_filtered, final(self).remaining_server_hello, final(self).cipher, final(self).enable_xtls)
                == filter_tls_spec(old(self).packets_filtered, old(self).remaining_server_hello, old(self).cipher, old(self).enable_xtls, data@),
            final(self).user_uuid == old(self).user_uuid,
            final(self).write_padding_active == old(self).write_padding_active,
            final(self).write_first_packet == old(self).write_first_packet,
            final(self).read_state == old(self).read_state,
            final(self).read_buf@ == old(self).read_buf@,
    {
        if self.packets_filtered <= 0 || data.len() < 6 {
            return;
        }
        self.packets_filtered = self.packets_filtered - 1;
        let is_hello = data[0] == TLS_CONTENT_TYPE_HANDSHAKE && data[1] == 0x03 && data[2] == 0x03 && data[5] == 0x02;
        if is_hello {
            self.remaining_server_hello = (data[3] as i32) * 256 + data[4] as i32 + 5;
            if data.len() >= 79 && self.remaining_server_hello >= 79 {
                let session_id_len = data[43] as usize;
                let cipher_offset = 43 + session_id_len + 1;
                if cipher_offset + 2 <= data.len() {
                    self.cipher = (data[cipher_offset] as u16) * 256 + data[cipher_offset + 1] as u16;
                }
            }
        }
        if self.remaining_server_hello > 0 {
            self.remaining_server_hello = self.remaining_server_hello - data.len() as i32;
            if self.remaining_server_hello <= 0 {
                let pattern = [0x00u8, 0x2b, 0x00, 0x02, 0x03, 0x04];
                proof {
                    assert(pattern@ =~= seq![0x00u8, 0x2bu8, 0x00u8, 0x02u8, 0x03u8, 0x04u8]);
                }
                if contains_bytes(data, pattern.as_slice()) {
                    if self.cipher != 0 && self.cipher != 0x1305 {
                        self.enable_xtls = true;
                    }
                }
            }
        }
    }

    /// Removes the peer's padding from the buffered bytes and gives the data; what a
    /// block still lacks stays for the next read.
    pub fn unpad_data(&mut self) -> (r: Vec<u8>)
        ensures
            ({
                let (st, out, rest) = unpad(old(self).read_state, old(self).user_uuid@, old(self).read_buf@);
                &&& final(self).read_state == st
                &&& r@ == out
                &&& final(self).read_buf@ == rest
            }),
            final(self).user_uuid == old(self).user_uuid,
            final(self).write_padding_active == old(self).write_padding_active,
            final(self).write_first_packet == old(self).write_first_packet,
            final(self).packets_filtered == old(self).packets_filtered,
            final(self).enable_xtls == old(self).enable_xtls,
            final(self).remaining_server_hello == old(self).remaining_server_hello,
            final(self).cipher == old(self).cipher,
    {
        let mut st = self.read_state;
        let uuid = self.user_uuid;
        let buf = copy_range(self.read_buf.as_slice(), 0, self.read_buf.len());
        proof {
            assert(buf@ =~= old(self).read_buf@);
        }
        let (s0, b0, pass) = unpad_start_exec(st, &uuid, buf);
        if pass {
            self.read_state = s0;
            self.read_buf = Vec::new();
            return b0;
        }
        let (s1, out, rest) = unpad_loop_exec(s0, b0);
        self.read_state = s1;
        self.read_buf = rest;
        out
    }
}

fn unpad_start_exec(st: VisionReadState, uuid: &[u8; 16], buf: Vec<u8>) -> (r: (VisionReadState, Vec<u8>, bool))
    ensures
        (r.0, r.1@, r.2) == unpad_start(st, uuid@, buf@),
{
    if st.remaining_command == -1 && st.remaining_content == -1 && st.remaining_padding == -1 {
        if st.first_packet {
            if buf.len() >= UUID_SIZE + PADDING_HEADER_SIZE && crate::bytes_util::has_prefix(buf.as_slice(), uuid.as_slice()) {
                proof {
                    assert(crate::bytes_util::starts_with(buf@, uuid@) ==> buf@.subrange(0, 16) =~= uuid@);
                }
                let rest = copy_range(buf.as_slice(), UUID_SIZE, buf.len());
                (VisionReadState { remaining_command: 5, first_packet: false, ..st }, rest, false)
            } else {
                proof {
                    if buf@.len() >= 21 && buf@.subrange(0, 16) == uuid@ {
                        assert(crate::bytes_util::starts_with(buf@, uuid@));
                    }
                }
                (VisionReadState { within_padding: false, ..st }, buf, true)
            }
        } else {
            (VisionReadState { remaining_command: 5, ..st }, buf, false)
        }
    } else {
        (st, buf, false)
    }
}

fn min_len(a: i32, b: usize) -> (r: usize)
    requires
        a > 0,
    ensures
        r as int == if a < b { a as int } else { b as int },
{
    if (a as usize) < b {
        a as usize
    } else {
        b
    }
}

fn unpad_loop_exec(st0: VisionReadState, buf0: Vec<u8>) -> (r: (VisionReadState, Vec<u8>, Vec<u8>))
    ensures
        (r.0, r.1@, r.2@) == unpad_loop(st0, buf0@, Seq::empty()),
{
    let mut st = st0;
    let mut buf = buf0;
    let mut out: Vec<u8> = Vec::new();
    loop
        invariant
            unpad_loop(st0, buf0@, Seq::empty()) == unpad_loop(st, buf@, out@),
        decreases buf@.len(), if st.remaining_command > 0 { 0int } else { 1int },
    {
        if buf.len() == 0 {
            return (st, out, buf);
        }
        let ghost before = (st, buf@, out@);
        let ghost turn = unpad_turn(st, buf@, out@);
        let len = buf.len();
        let rc0 = st.remaining_command;
        if st.remaining_command > 0 {
            let byte = buf[0];
            if st.remaining_command == 5 {
                st.current_command = byte;
            } else if st.remaining_command == 4 {
                st.remaining_content = (byte as i32) * 256;
            } else if st.remaining_command == 3 {
                st.remaining_content = st.remaining_content | byte as i32;
            } else if st.remaining_command == 2 {
                st.remaining_padding = (byte as i32) * 256;
            } else if st.remaining_command == 1 {
                st.remaining_padding = st.remaining_padding | byte as i32;
            }
            st.remaining_command = st.remaining_command - 1;
            buf = copy_range(buf.as_slice(), 1, len);
            proof {
                assert(buf@ =~= before.1.drop_first());
            }
        } else if st.remaining_content > 0 {
            let n = min_len(st.remaining_content, len);
            let chunk = copy_range(buf.as_slice(), 0, n);
            push_all(&mut out, chunk.as_slice());
            buf = copy_range(buf.as_slice(), n, len);
            st.remaining_content = st.remaining_content - n as i32;
        } else if st.remaining_padding > 0 {
            let n = min_len(st.remaining_padding, len);
            buf = copy_range(buf.as_slice(), n, len);
            st.remaining_padding = st.remaining_padding - n as i32;
        }
        let mut stop = false;
        if st.remaining_command <= 0 && st.remaining_content <= 0 && st.remaining_padding <= 0 {
            if st.current_command == COMMAND_PADDING_CONTINUE {
                st.remaining_command = 5;
            } else {
                st.remaining_command = -1;
                st.remaining_content = -1;
                st.remaining_padding = -1;
                if st.current_command == COMMAND_PADDING_DIRECT {
                    st.direct_copy = true;
                    st.within_padding = false;
                }
                push_all(&mut out, buf.as_slice());
                buf = Vec::new();
                stop = true;
            }
        }
        proof {
            assert((st, out@, buf@, stop) == turn);
        }
        if stop || !(buf.len() < len || (buf.len() == len && st.remaining_command > 0 && rc0 <= 0)) {
            return (st, out, buf);
        }
    }
}

proof fn lemma_or_low_byte(hi: u8, lo: u8)
    ensures
        ((hi as int * 256) as i32 | lo as i32) == hi as int * 256 + lo as int,
{
    let h = (hi as int * 256) as i32;
    let l = lo as i32;
    assert(0 <= h < 65536);
    assert(h % 256 == 0);
    assert(h | l == h + l) by (bit_vector)
        requires
            0 <= h < 65536,
            h % 256 == 0,
            0 <= l < 256,
    ;
}

proof fn lemma_be2(x: nat)
    requires
        x < 65536,
    ensures
        be_bytes(x, 2) == seq![(x / 256) as u8, (x % 256) as u8],
        (x / 256) as u8 as int * 256 + (x % 256) as u8 as int == x,
{
    reveal_with_fuel(be_bytes, 3);
    assert(x / 256 < 256);
    assert((x / 256) % 256 == x / 256);
    assert(be_bytes((x / 256) as nat, 1) =~= seq![((x / 256) % 256) as u8]);
    assert(be_bytes(x, 2) =~= seq![((x / 256) % 256) as u8, (x % 256) as u8]);
}

/// The first frame that the writing side pads (with the Continue command) is read
/// back by a fresh reading side as exactly its content, with nothing left over and
/// the reader waiting for the next block's header.
pub proof fn lemma_first_frame_unpads(uuid: Seq<u8>, data: Seq<u8>, padding: Seq<u8>)
    requires
        uuid.len() == 16,
        data.len() < 65536,
        padding.len() < 65536,
    ensures
        ({
            let (st, out, rest) = unpad(initial_read_state(), uuid, padded_frame(Some(uuid), COMMAND_PADDING_CONTINUE, data, padding));
            &&& out == data
            &&& rest.len() == 0
            &&& st.remaining_command == 5
        }),
{
    let frame = padded_frame(Some(uuid), COMMAND_PADDING_CONTINUE, data, padding);
    let n = data.len();
    let pl = padding.len();
    lemma_be2(n);
    lemma_be2(pl);
    let nh = (n / 256) as u8;
    let nl = (n % 256) as u8;
    let ph = (pl / 256) as u8;
    let pw = (pl % 256) as u8;
    let body = seq![0u8, nh, nl, ph, pw] + data + padding;
    assert(frame =~= uuid + body);
    assert(frame.subrange(0, 16) =~= uuid);
    assert(frame.subrange(16, frame.len() as int) =~= body);
    let s0 = VisionReadState { remaining_command: 5, first_packet: false, ..initial_read_state() };
    assert(unpad_start(initial_read_state(), uuid, frame) == (s0, body, false));
    // the five header bytes
    let b1 = body.drop_first();
    let s1 = VisionReadState { current_command: 0u8, remaining_command: 4i32, ..s0 };
    assert(unpad_turn(s0, body, Seq::empty()) == (s1, Seq::<u8>::empty(), b1, false));
    let b2 = b1.drop_first();
    let s2 = VisionReadState { remaining_content: (nh as int * 256) as i32, remaining_command: 3i32, ..s1 };
    assert(b1[0] == nh);
    assert(unpad_turn(s1, b1, Seq::empty()) == (s2, Seq::<u8>::empty(), b2, false));
    let b3 = b2.drop_first();
    lemma_or_low_byte(nh, nl);
    let s3 = VisionReadState { remaining_content: n as i32, remaining_command: 2i32, ..s2 };
    assert(b2[0] == nl);
    assert(unpad_turn(s2, b2, Seq::empty()) == (s3, Seq::<u8>::empty(), b3, false));
    let b4 = b3.drop_first();
    let s4 = VisionReadState { remaining_padding: (ph as int * 256) as i32, remaining_command: 1i32, ..s3 };
    assert(b3[0] == ph);
    assert(unpad_turn(s3, b3, Seq::empty()) == (s4, Seq::<u8>::empty(), b4, false));
    let b5 = b4.drop_first();
    lemma_or_low_byte(ph, pw);
    let s5 = VisionReadState { remaining_padding: pl as i32, remaining_command: 0i32, ..s4 };
    assert(b4[0] == pw);
    assert(b5 =~= data + padding);
    let t5 = unpad_turn(s4, b4, Seq::empty());
    if n == 0 && pl == 0 {
        let s5c = VisionReadState { remaining_command: 5i32, ..s5 };
        assert(t5 == (s5c, Seq::<u8>::empty(), b5, false));
        assert(b5.len() == 0);
        assert(unpad_loop(s0, body, Seq::empty()) == unpad_loop(s1, b1, Seq::empty()));
        assert(unpad_loop(s1, b1, Seq::empty()) == unpad_loop(s2, b2, Seq::empty()));
        assert(unpad_loop(s2, b2, Seq::empty()) == unpad_loop(s3, b3, Seq::empty()));
        assert(unpad_loop(s3, b3, Seq::empty()) == unpad_loop(s4, b4, Seq::empty()));
        assert(unpad_loop(s4, b4, Seq::empty()) == unpad_loop(s5c, b5, Seq::empty()));
    } else {
        assert(t5 == (s5, Seq::<u8>::empty(), b5, false));
        assert(unpad_loop(s0, body, Seq::empty()) == unpad_loop(s1, b1, Seq::empty()));
        assert(unpad_loop(s1, b1, Seq::empty()) == unpad_loop(s2, b2, Seq::empty()));
        assert(unpad_loop(s2, b2, Seq::empty()) == unpad_loop(s3, b3, Seq::empty()));
        assert(unpad_loop(s3, b3, Seq::empty()) == unpad_loop(s4, b4, Seq::empty()));
        assert(unpad_loop(s4, b4, Seq::empty()) == unpad_loop(s5, b5, Seq::empty()));
        if n > 0 {
            let b6 = padding;
            assert(b5.subrange(0, n as int) =~= data);
            assert(b5.subrange(n as int, b5.len() as int) =~= padding);
            let s6 = VisionReadState { remaining_content: 0i32, ..s5 };
            if pl == 0 {
                let s6c = VisionReadState { remaining_command: 5i32, ..s6 };
                assert(unpad_turn(s5, b5, Seq::empty()) == (s6c, Seq::<u8>::empty() + data, b6, false));
                assert(Seq::<u8>::empty() + data =~= data);
                assert(unpad_loop(s5, b5, Seq::empty()) == unpad_loop(s6c, b6, data));
            } else {
                assert(unpad_turn(s5, b5, Seq::empty()) == (s6, Seq::<u8>::empty() + data, b6, false));
                assert(Seq::<u8>::empty() + data =~= data);
                assert(unpad_loop(s5, b5, Seq::empty()) == unpad_loop(s6, b6, data));
                let s7 = VisionReadState { remaining_padding: 0i32, remaining_command: 5i32, ..s6 };
                assert(padding.subrange(pl as int, pl as int) =~= Seq::<u8>::empty());
                assert(unpad_turn(s6, b6, data) == (s7, data, Seq::<u8>::empty(), false));
                assert(unpad_loop(s6, b6, data) == unpad_loop(s7, Seq::<u8>::empty(), data));
            }
        } else {
            assert(b5 =~= padding);
            let s7 = VisionReadState { remaining_padding: 0i32, remaining_command: 5i32, ..s5 };
            assert(padding.subrange(pl as int, pl as int) =~= Seq::<u8>::empty());
            assert(unpad_turn(s5, b5, Seq::empty()) == (s7, Seq::<u8>::empty(), Seq::<u8>::empty(), false));
            assert(unpad_loop(s5, b5, Seq::empty()) == unpad_loop(s7, Seq::<u8>::empty(), Seq::empty()));
            assert(data =~= Seq::<u8>::empty());
        }
    }
}

/// A frame padded with the Continue command, read by a reader waiting for a header,
/// gives its content and leaves the reader waiting for the next header, whatever
/// follows it.
#[verifier::rlimit(40)]
proof fn lemma_continue_frame(st: VisionReadState, data: Seq<u8>, padding: Seq<u8>, rest: Seq<u8>, out: Seq<u8>)
    requires
        st.remaining_command == 5,
        data.len() < 65536,
        padding.len() < 65536,
    ensures
        exists|st2: VisionReadState| st2.remaining_command == 5 && #[trigger] unpad_loop(
            st,
            padded_frame(None, COMMAND_PADDING_CONTINUE, data, padding) + rest,
            out,
        ) == unpad_loop(st2, rest, out + data),
{
    let n = data.len();
    let pl = padding.len();
    lemma_be2(n);
    lemma_be2(pl);
    let nh = (n / 256) as u8;
    let nl = (n % 256) as u8;
    let ph = (pl / 256) as u8;
    let pw = (pl % 256) as u8;
    let body = seq![COMMAND_PADDING_CONTINUE, nh, nl, ph, pw] + data + padding + rest;
    assert(padded_frame(None, COMMAND_PADDING_CONTINUE, data, padding) + rest =~= body);
    let b1 = body.drop_first();
    let s1 = VisionReadState { current_command: COMMAND_PADDING_CONTINUE, remaining_command: 4i32, ..st };
    assert(unpad_turn(st, body, out) == (s1, out, b1, false));
    assert(unpad_loop(st, body, out) == unpad_loop(s1, b1, out));
    let b2 = b1.drop_first();
    let s2 = VisionReadState { remaining_content: (nh as int * 256) as i32, remaining_command: 3i32, ..s1 };
    assert(b1[0] == nh);
    assert(unpad_turn(s1, b1, out) == (s2, out, b2, false));
    assert(unpad_loop(s1, b1, out) == unpad_loop(s2, b2, out));
    let b3 = b2.drop_first();
    lemma_or_low_byte(nh, nl);
    let s3 = VisionReadState { remaining_content: n as i32, remaining_command: 2i32, ..s2 };
    assert(b2[0] == nl);
    assert(unpad_turn(s2, b2, out) == (s3, out, b3, false));
    assert(unpad_loop(s2, b2, out) == unpad_loop(s3, b3, out));
    let b4 = b3.drop_first();
    let s4 = VisionReadState { remaining_padding: (ph as int * 256) as i32, remaining_command: 1i32, ..s3 };
    assert(b3[0] == ph);
    assert(unpad_turn(s3, b3, out) == (s4, out, b4, false));
    assert(unpad_loop(s3, b3, out) == unpad_loop(s4, b4, out));
    let b5 = b4.drop_first();
    lemma_or_low_byte(ph, pw);
    let s5 = VisionReadState { remaining_padding: pl as i32, remaining_command: 0i32, ..s4 };
    assert(b4[0] == pw);
    assert(b5 =~= data + padding + rest);
    if n == 0 && pl == 0 {
        let s5c = VisionReadState { remaining_command: 5i32, ..s5 };
        assert(unpad_turn(s4, b4, out) == (s5c, out, b5, false));
        assert(b5 =~= rest);
        assert(out + data =~= out);
        assert(unpad_loop(s4, b4, out) == unpad_loop(s5c, b5, out));
        assert(unpad_loop(st, body, out) == unpad_loop(s5c, rest, out + data));
    } else {
        assert(unpad_turn(s4, b4, out) == (s5, out, b5, false));
        assert(unpad_loop(s4, b4, out) == unpad_loop(s5, b5, out));
        if n > 0 {
            let b6 = padding + rest;
            assert(b5.subrange(0, n as int) =~= data);
            assert(b5.subrange(n as int, b5.len() as int) =~= b6);
            let s6 = VisionReadState { remaining_content: 0i32, ..s5 };
            if pl == 0 {
                let s6c = VisionReadState { remaining_command: 5i32, ..s6 };
                assert(b6 =~= rest);
                assert(unpad_turn(s5, b5, out) == (s6c, out + data, b6, false));
                assert(unpad_loop(s5, b5, out) == unpad_loop(s6c, b6, out + data));
                assert(unpad_loop(st, body, out) == unpad_loop(s6c, rest, out + data));
            } else {
                assert(unpad_turn(s5, b5, out) == (s6, out + data, b6, false));
                assert(unpad_loop(s5, b5, out) == unpad_loop(s6, b6, out + data));
                let s7 = VisionReadState { remaining_padding: 0i32, remaining_command: 5i32, ..s6 };
                assert(b6.subrange(pl as int, b6.len() as int) =~= rest);
                assert(unpad_turn(s6, b6, out + data) == (s7, out + data, rest, false));
                assert(unpad_loop(s6, b6, out + data) == unpad_loop(s7, rest, out + data));
                assert(unpad_loop(st, body, out) == unpad_loop(s7, rest, out + data));
            }
        } else {
            assert(b5 =~= padding + rest);
            assert(out + data =~= out);
            let s7 = VisionReadState { remaining_padding: 0i32, remaining_command: 5i32, ..s5 };
            assert(b5.subrange(pl as int, b5.len() as int) =~= rest);
            assert(unpad_turn(s5, b5, out) == (s7, out, rest, false));
            assert(unpad_loop(s5, b5, out) == unpad_loop(s7, rest, out));
            assert(unpad_loop(st, body, out) == unpad_loop(s7, rest, out + data));
        }
    }
}

/// Frames padded with the Continue command, one after another (without the user's
/// id, which only the first frame of a stream carries).
pub open spec fn continue_frames(ds: Seq<Seq<u8>>, ps: Seq<Seq<u8>>) -> Seq<u8>
    decreases ds.len(),
{
    if ds.len() == 0 || ps.len() == 0 {
        Seq::empty()
    } else {
        padded_frame(None, COMMAND_PADDING_CONTINUE, ds[0], ps[0]) + continue_frames(ds.drop_first(), ps.drop_first())
    }
}

/// The contents of frames, one after another.
pub open spec fn contents(ds: Seq<Seq<u8>>) -> Seq<u8>
    decreases ds.len(),
{
    if ds.len() == 0 {
        Seq::empty()
    } else {
        ds[0] + contents(ds.drop_first())
    }
}

proof fn lemma_continue_frames(st: VisionReadState, ds: Seq<Seq<u8>>, ps: Seq<Seq<u8>>, out: Seq<u8>)
    requires
        st.remaining_command == 5,
        ds.len() == ps.len(),
        forall|i: int| 0 <= i < ds.len() ==> (#[trigger] ds[i]).len() < 65536 && ps[i].len() < 65536,
    ensures
        ({
            let (s, o, r) = unpad_loop(st, continue_frames(ds, ps), out);
            &&& o == out + contents(ds)
            &&& r.len() == 0
            &&& s.remaining_command == 5
        }),
    decreases ds.len(),
{
    if ds.len() == 0 {
        assert(out + contents(ds) =~= out);
    } else {
        let tail = continue_frames(ds.drop_first(), ps.drop_first());
        assert(ds[0].len() < 65536 && ps[0].len() < 65536);
        lemma_continue_frame(st, ds[0], ps[0], tail, out);
        let st2 = choose|st2: VisionReadState| st2.remaining_command == 5 && #[trigger] unpad_loop(
            st,
            padded_frame(None, COMMAND_PADDING_CONTINUE, ds[0], ps[0]) + tail,
            out,
        ) == unpad_loop(st2, tail, out + ds[0]);
        assert forall|i: int| 0 <= i < ds.drop_first().len() implies (#[trigger] ds.drop_first()[i]).len() < 65536
            && ps.drop_first()[i].len() < 65536 by {
            assert(ds.drop_first()[i] == ds[i + 1]);
        }
        lemma_continue_frames(st2, ds.drop_first(), ps.drop_first(), out + ds[0]);
        assert(out + ds[0] + contents(ds.drop_first()) =~= out + contents(ds));
    }
}

/// The frames a fresh writing side pads with the Continue command, read back in
/// order by a fresh reading side of the same user, give the contents one after
/// another, with nothing left over and the reader waiting for the next header.
pub proof fn lemma_frames_unpad(uuid: Seq<u8>, ds: Seq<Seq<u8>>, ps: Seq<Seq<u8>>)
    requires
        uuid.len() == 16,
        ds.len() == ps.len(),
        ds.len() > 0,
        forall|i: int| 0 <= i < ds.len() ==> (#[trigger] ds[i]).len() < 65536 && ps[i].len() < 65536,
    ensures
        ({
            let buf = padded_frame(Some(uuid), COMMAND_PADDING_CONTINUE, ds[0], ps[0]) + continue_frames(
                ds.drop_first(),
                ps.drop_first(),
            );
            let (st, out, rest) = unpad(initial_read_state(), uuid, buf);
            &&& out == contents(ds)
            &&& rest.len() == 0
            &&& st.remaining_command == 5
        }),
{
    let buf = padded_frame(Some(uuid), COMMAND_PADDING_CONTINUE, ds[0], ps[0]) + continue_frames(ds.drop_first(), ps.drop_first());
    let all = continue_frames(ds, ps);
    assert(buf =~= uuid + all);
    assert(buf.subrange(0, 16) =~= uuid);
    assert(buf.subrange(16, buf.len() as int) =~= all);
    crate::bytes_util::lemma_be_len((ds[0].len() % 65536) as nat, 2);
    crate::bytes_util::lemma_be_len((ps[0].len() % 65536) as nat, 2);
    assert(buf.len() >= 21);
    let s0 = VisionReadState { remaining_command: 5, first_packet: false, ..initial_read_state() };
    assert(unpad_start(initial_read_state(), uuid, buf) == (s0, all, false));
    lemma_continue_frames(s0, ds, ps, Seq::empty());
    assert(Seq::<u8>::empty() + contents(ds) =~= contents(ds));
}

} // verus!
