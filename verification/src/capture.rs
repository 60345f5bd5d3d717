use vstd::prelude::*;
use vstd::string::StringExecFns;

use crate::note_labels::{
    decimal_string,
    digits,
};
use crate::sample_rate::SampleRate;
use crate::text::{
    chars_of,
    slice_of,
    starts_with,
    starts_with_chars,
    string_of,
};

verus! {

/// `i16::from_le_bytes([lo, hi])`: the two's-complement value of `lo + 256 * hi`.
pub open spec fn le_i16(lo: u8, hi: u8) -> i16 {
    let u = lo as int + 256 * hi as int;
    (if u >= 32768 {
        u - 65536
    } else {
        u
    }) as i16
}

/// The samples of an s16le byte stream: one per complete pair of bytes, in order; a
/// trailing odd byte yields none.
pub open spec fn decode_s16le(bytes: Seq<u8>) -> Seq<i16>
    decreases bytes.len(),
{
    if bytes.len() < 2 {
        Seq::<i16>::empty()
    } else {
        seq![le_i16(bytes[0], bytes[1])] + decode_s16le(bytes.skip(2))
    }
}

/// The byte held over from the previous read, as a sequence.
pub open spec fn carried(carry: Option<u8>) -> Seq<u8> {
    match carry {
        Some(b) => seq![b],
        None => Seq::<u8>::empty(),
    }
}

/// The byte left over when `bytes` has odd length.
pub open spec fn leftover(bytes: Seq<u8>) -> Option<u8> {
    if bytes.len() % 2 == 1 {
        Some(bytes.last())
    } else {
        None
    }
}

fn le_i16_exec(lo: u8, hi: u8) -> (v: i16)
    ensures
        v == le_i16(lo, hi),
{
    let u: u32 = lo as u32 + 256 * (hi as u32);
    if u >= 32768 {
        (u as i32 - 65536) as i16
    } else {
        u as i16
    }
}

proof fn lemma_decode_step(bytes: Seq<u8>, i: int)
    requires
        0 <= i,
        i % 2 == 0,
        i + 2 <= bytes.len(),
    ensures
        decode_s16le(bytes.take(i + 2)) == decode_s16le(bytes.take(i)).push(
            le_i16(bytes[i], bytes[i + 1]),
        ),
    decreases i,
{
    if i == 0 {
        assert(bytes.take(2).skip(2) =~= Seq::<u8>::empty());
        assert(decode_s16le(bytes.take(0)) =~= Seq::<i16>::empty());
        assert(decode_s16le(bytes.take(2).skip(2)) =~= Seq::<i16>::empty());
        assert(bytes.take(2)[0] == bytes[0] && bytes.take(2)[1] == bytes[1]);
        assert(decode_s16le(bytes.take(2)) =~= seq![le_i16(bytes[0], bytes[1])]);
    } else {
        let rest = bytes.skip(2);
        lemma_decode_step(rest, i - 2);
        assert(bytes.take(i + 2).skip(2) =~= rest.take(i));
        assert(bytes.take(i).skip(2) =~= rest.take(i - 2));
        assert(rest[i - 2] == bytes[i] && rest[i - 1] == bytes[i + 1]);
        assert(decode_s16le(bytes.take(i + 2)) =~= seq![le_i16(bytes[0], bytes[1])]
            + decode_s16le(rest.take(i)));
        assert(decode_s16le(bytes.take(i)) =~= seq![le_i16(bytes[0], bytes[1])] + decode_s16le(
            rest.take(i - 2),
        ));
    }
}

proof fn lemma_decode_drop_odd(bytes: Seq<u8>)
    requires
        bytes.len() % 2 == 1,
    ensures
        decode_s16le(bytes) == decode_s16le(bytes.drop_last()),
    decreases bytes.len(),
{
    if bytes.len() >= 3 {
        lemma_decode_drop_odd(bytes.skip(2));
        assert(bytes.skip(2).drop_last() =~= bytes.drop_last().skip(2));
    } else {
        assert(bytes.drop_last().len() == 0);
    }
}

/// Splits the bytes `parec` delivered into s16le samples, pairing a byte held over from
/// the previous read with the first byte of this one, and holding over a final odd byte.
pub fn split_s16le(carry: Option<u8>, chunk: &[u8]) -> (r: (Vec<i16>, Option<u8>))
    ensures
        r.0@ == decode_s16le(carried(carry) + chunk@),
        r.1 == leftover(carried(carry) + chunk@),
{
    let ghost carry0 = carry;
    let ghost stream = carried(carry) + chunk@;
    let mut samples: Vec<i16> = Vec::new();
    let mut idx: usize = 0;
    let mut carry = carry;
    if let Some(lo) = carry {
        if chunk.len() > 0 {
            samples.push(le_i16_exec(lo, chunk[0]));
            proof {
                lemma_decode_step(stream, 0);
                assert(stream.take(0) =~= Seq::<u8>::empty());
            }
            idx = 1;
            carry = None;
        } else {
            proof {
                assert(stream =~= seq![lo]);
            }
            return (samples, carry);
        }
    } else {
        proof {
            assert(stream.take(0) =~= Seq::<u8>::empty());
        }
    }
    let ghost shift: int = stream.len() - chunk@.len();
    assert(shift == 0 || shift == 1);
    assert(idx as int + shift == 0 || idx as int + shift == 2);
    while chunk.len() - idx > 1
        invariant
            idx <= chunk.len(),
            stream == carried(carry0) + chunk@,
            shift == stream.len() - chunk@.len(),
            shift == 0 || shift == 1,
            (idx + shift) % 2 == 0,
            samples@ == decode_s16le(stream.take(idx + shift)),
        decreases chunk.len() - idx,
    {
        proof {
            let i = idx + shift;
            lemma_decode_step(stream, i);
            assert(stream[i] == chunk@[idx as int] && stream[i + 1] == chunk@[idx + 1]);
        }
        samples.push(le_i16_exec(chunk[idx], chunk[idx + 1]));
        idx += 2;
    }
    let left = if idx < chunk.len() {
        Some(chunk[idx])
    } else {
        None
    };
    proof {
        if idx < chunk.len() {
            assert(stream.take(idx + shift) =~= stream.drop_last());
            lemma_decode_drop_odd(stream);
            assert(stream.last() == chunk@[idx as int]);
        } else {
            assert(stream.take(idx + shift) =~= stream);
        }
    }
    (samples, left)
}

proof fn lemma_decode_append_even(x: Seq<u8>, y: Seq<u8>)
    requires
        x.len() % 2 == 0,
    ensures
        decode_s16le(x + y) == decode_s16le(x) + decode_s16le(y),
    decreases x.len(),
{
    if x.len() == 0 {
        assert(x + y =~= y);
        assert(decode_s16le(x) + decode_s16le(y) =~= decode_s16le(y));
    } else {
        lemma_decode_append_even(x.skip(2), y);
        assert((x + y).skip(2) =~= x.skip(2) + y);
        assert((x + y)[0] == x[0] && (x + y)[1] == x[1]);
        assert(decode_s16le(x + y) =~= seq![le_i16(x[0], x[1])] + (decode_s16le(x.skip(2))
            + decode_s16le(y)));
    }
}

/// Reading a stream in two chunks, holding over the odd byte between them, yields the
/// same samples as reading it in one: however `parec`'s output is cut into reads, no
/// sample is lost, split, or shifted.
pub proof fn lemma_split_s16le_chunking(carry: Option<u8>, first: Seq<u8>, second: Seq<u8>)
    ensures
        decode_s16le(carried(carry) + first) + decode_s16le(
            carried(leftover(carried(carry) + first)) + second,
        ) == decode_s16le(carried(carry) + first + second),
        leftover(carried(leftover(carried(carry) + first)) + second) == leftover(
            carried(carry) + first + second,
        ),
{
    let s = carried(carry) + first;
    if s.len() % 2 == 0 {
        assert(carried(leftover(s)) + second =~= second);
        lemma_decode_append_even(s, second);
        if second.len() > 0 {
            assert((s + second).last() == second.last());
        }
    } else {
        let e = s.drop_last();
        let l = s.last();
        assert(carried(leftover(s)) =~= seq![l]);
        assert(s + second =~= e + (seq![l] + second));
        lemma_decode_append_even(e, seq![l] + second);
        lemma_decode_append_even(e, seq![l]);
        assert(e + seq![l] =~= s);
        assert(decode_s16le(seq![l]) =~= Seq::<i16>::empty());
        assert(decode_s16le(e) + decode_s16le(seq![l]) =~= decode_s16le(e));
        assert((seq![l] + second).len() == second.len() + 1);
        if second.len() > 0 {
            assert((seq![l] + second).last() == second.last());
            assert((s + second).last() == second.last());
        } else {
            assert(seq![l] + second =~= seq![l]);
            assert(s + second =~= s);
        }
    }
}


/// Latency `parec` is asked for, in milliseconds.
pub const PULSE_CAPTURE_LATENCY_MS: u32 = 20;

/// Processing time `parec` is asked for, in milliseconds.
pub const PULSE_CAPTURE_PROCESS_MS: u32 = 10;

/// The Pulse device behind a route id: the id without its `pulse::` prefix (an id
/// without the prefix is taken as the device name itself).
pub open spec fn pulse_device_of(input_id: Seq<char>) -> Seq<char> {
    if starts_with(input_id, "pulse::"@) {
        input_id.skip("pulse::"@.len() as int)
    } else {
        input_id
    }
}

/// The command line `parec` is started with to capture `input_id` at `sample_rate`.
pub open spec fn parec_argument_list(input_id: Seq<char>, sample_rate: u32) -> Seq<Seq<char>> {
    seq![
        "--record"@,
        "--raw"@,
        "--format=s16le"@,
        "--channels=1"@,
        "--rate"@,
        digits(sample_rate as nat),
        "--latency-msec"@,
        digits(PULSE_CAPTURE_LATENCY_MS as nat),
        "--process-time-msec"@,
        digits(PULSE_CAPTURE_PROCESS_MS as nat),
        "--client-name=fretboard"@,
        "--stream-name=fretboard-input"@,
        "--device"@,
        pulse_device_of(input_id),
    ]
}

/// The device name `parec` is pointed at for a route id.
pub fn pulse_device_name(input_id: &str) -> (name: String)
    ensures
        name@ == pulse_device_of(input_id@),
{
    let id = chars_of(input_id);
    let prefix = chars_of("pulse::");
    if starts_with_chars(&id, &prefix) {
        let rest = slice_of(&id, prefix.len(), id.len());
        assert(rest@ =~= input_id@.skip("pulse::"@.len() as int));
        string_of(&rest)
    } else {
        string_of(&id)
    }
}

/// The arguments `parec` is started with: raw mono s16le at the device rate, low
/// latency, from the device behind `input_id`.
pub fn parec_arguments(input_id: &str, sample_rate: SampleRate) -> (args: Vec<String>)
    ensures
        args@.map_values(|a: String| a@) == parec_argument_list(input_id@, sample_rate.0),
{
    let mut args: Vec<String> = Vec::new();
    args.push(String::from_str("--record"));
    args.push(String::from_str("--raw"));
    args.push(String::from_str("--format=s16le"));
    args.push(String::from_str("--channels=1"));
    args.push(String::from_str("--rate"));
    args.push(decimal_string(sample_rate.0 as u64));
    args.push(String::from_str("--latency-msec"));
    args.push(decimal_string(PULSE_CAPTURE_LATENCY_MS as u64));
    args.push(String::from_str("--process-time-msec"));
    args.push(decimal_string(PULSE_CAPTURE_PROCESS_MS as u64));
    args.push(String::from_str("--client-name=fretboard"));
    args.push(String::from_str("--stream-name=fretboard-input"));
    args.push(String::from_str("--device"));
    args.push(pulse_device_name(input_id));
    assert(args@.map_values(|a: String| a@) =~= parec_argument_list(input_id@, sample_rate.0));
    args
}

} // verus!
