//! The uniform result contract handed to every frontend: success flag,
//! message, device list and error code, with the defined error codes.

use crate::device::{device_views, DeviceInfo, DeviceView};
use crate::json::{esc_bytes, push_esc_bytes};
use vstd::prelude::*;
use vstd::utf8::encode_utf8;

verus! {

pub const EXIT_SUCCESS: i32 = 0;

pub const EXIT_GENERAL_ERROR: i32 = 1;

pub const EXIT_BLUETOOTH_ERROR: i32 = 2;

pub const EXIT_NO_DEVICES_FOUND: i32 = 3;

pub const EXIT_COMMAND_FAILED: i32 = 4;

pub const EXIT_STEAMVR_ERROR: i32 = 5;

/// What every operation reports back, whichever frontend asked.
#[derive(Debug)]
pub struct CommandResponse {
    pub success: bool,
    pub message: String,
    pub devices: Vec<DeviceInfo>,
    pub error_code: i32,
}

/// Mathematical model of a `CommandResponse`.
#[verifier::ext_equal]
pub ghost struct ResponseView {
    pub success: bool,
    pub message: Seq<char>,
    pub devices: Seq<DeviceView>,
    pub error_code: int,
}

impl View for CommandResponse {
    type V = ResponseView;

    open spec fn view(&self) -> ResponseView {
        ResponseView {
            success: self.success,
            message: self.message@,
            devices: device_views(self.devices@),
            error_code: self.error_code as int,
        }
    }
}

/// The model of a successful response carrying `devices`.
pub open spec fn spec_success_response(message: Seq<char>, devices: Seq<DeviceView>)
    -> ResponseView {
    ResponseView { success: true, message, devices, error_code: EXIT_SUCCESS as int }
}

/// The model of an error response: no devices, the given code.
pub open spec fn spec_error_response(message: Seq<char>, error_code: int) -> ResponseView {
    ResponseView { success: false, message, devices: Seq::empty(), error_code }
}

impl CommandResponse {
    /// A success response with a message and the devices it concerns.
    pub fn success(message: &str, devices: Vec<DeviceInfo>) -> (r: Self)
        ensures
            r@ == spec_success_response(message@, device_views(devices@)),
    {
        let r = CommandResponse {
            success: true,
            message: message.to_owned(),
            devices,
            error_code: EXIT_SUCCESS,
        };
        assert(r@ =~= spec_success_response(message@, device_views(r.devices@)));
        r
    }

    /// An error response with a message and one of the defined error codes.
    pub fn error(message: &str, error_code: i32) -> (r: Self)
        requires
            EXIT_GENERAL_ERROR <= error_code <= EXIT_STEAMVR_ERROR,
        ensures
            r@ == spec_error_response(message@, error_code as int),
    {
        let r = CommandResponse {
            success: false,
            message: message.to_owned(),
            devices: Vec::new(),
            error_code,
        };
        assert(device_views(r.devices@) =~= Seq::<DeviceView>::empty());
        assert(r@ =~= spec_error_response(message@, error_code as int));
        r
    }
}

/// The JSON spelling of a boolean.
pub open spec fn spec_bool_bytes(b: bool) -> Seq<u8> {
    if b {
        seq![0x74u8, 0x72u8, 0x75u8, 0x65u8]
    } else {
        seq![0x66u8, 0x61u8, 0x6Cu8, 0x73u8, 0x65u8]
    }
}

/// One device as a compact JSON object: `{"name":...,"address":...}`.
pub open spec fn spec_compact_record(d: DeviceView) -> Seq<u8> {
    seq![0x7Bu8, 0x22u8, 0x6Eu8, 0x61u8, 0x6Du8, 0x65u8, 0x22u8, 0x3Au8, 0x22u8] + esc_bytes(
        encode_utf8(d.name),
    ) + seq![
        0x22u8,
        0x2Cu8,
        0x22u8,
        0x61u8,
        0x64u8,
        0x64u8,
        0x72u8,
        0x65u8,
        0x73u8,
        0x73u8,
        0x22u8,
        0x3Au8,
        0x22u8,
    ] + esc_bytes(encode_utf8(d.address)) + seq![0x22u8, 0x7Du8]
}

/// Compact records joined by commas.
pub open spec fn spec_compact_records(l: Seq<DeviceView>) -> Seq<u8>
    decreases l.len(),
{
    if l.len() == 0 {
        Seq::empty()
    } else if l.len() == 1 {
        spec_compact_record(l[0])
    } else {
        spec_compact_record(l[0]) + seq![0x2Cu8] + spec_compact_records(l.drop_first())
    }
}

/// A device list as a compact JSON array.
pub open spec fn spec_compact_devices(l: Seq<DeviceView>) -> Seq<u8> {
    seq![0x5Bu8] + spec_compact_records(l) + seq![0x5Du8]
}

/// A whole response as one compact JSON object, the structured output
/// contract of every frontend.
pub open spec fn spec_response_json(r: ResponseView) -> Seq<u8> {
    seq![0x7Bu8, 0x22u8, 0x73u8, 0x75u8, 0x63u8, 0x63u8, 0x65u8, 0x73u8, 0x73u8, 0x22u8, 0x3Au8]
        + spec_bool_bytes(r.success) + seq![
        0x2Cu8,
        0x22u8,
        0x6Du8,
        0x65u8,
        0x73u8,
        0x73u8,
        0x61u8,
        0x67u8,
        0x65u8,
        0x22u8,
        0x3Au8,
        0x22u8,
    ] + esc_bytes(encode_utf8(r.message)) + seq![
        0x22u8,
        0x2Cu8,
        0x22u8,
        0x64u8,
        0x65u8,
        0x76u8,
        0x69u8,
        0x63u8,
        0x65u8,
        0x73u8,
        0x22u8,
        0x3Au8,
    ] + spec_compact_devices(r.devices) + seq![
        0x2Cu8,
        0x22u8,
        0x65u8,
        0x72u8,
        0x72u8,
        0x6Fu8,
        0x72u8,
        0x5Fu8,
        0x63u8,
        0x6Fu8,
        0x64u8,
        0x65u8,
        0x22u8,
        0x3Au8,
    ] + seq![(0x30 + r.error_code) as u8] + seq![0x7Du8]
}

/// Appending one more record to a non-empty compact list appends a comma
/// and the record.
proof fn lemma_compact_records_push(l: Seq<DeviceView>, x: DeviceView)
    requires
        l.len() >= 1,
    ensures
        spec_compact_records(l.push(x)) == spec_compact_records(l) + seq![0x2Cu8]
            + spec_compact_record(x),
    decreases l.len(),
{
    if l.len() == 1 {
        assert(l.push(x).drop_first() =~= seq![x]);
        assert(spec_compact_records(seq![x]) == spec_compact_record(x));
        assert(l.push(x)[0] == l[0]);
        assert(spec_compact_records(l.push(x)) =~= spec_compact_records(l) + seq![0x2Cu8]
            + spec_compact_record(x));
    } else {
        lemma_compact_records_push(l.drop_first(), x);
        assert(l.push(x).drop_first() =~= l.drop_first().push(x));
        assert(l.push(x)[0] == l[0]);
        assert(spec_compact_records(l.push(x)) =~= spec_compact_records(l) + seq![0x2Cu8]
            + spec_compact_record(x));
    }
}

/// Append one compact record to `out`.
fn push_compact_record(out: &mut Vec<u8>, d: &DeviceInfo)
    ensures
        final(out)@ == old(out)@ + spec_compact_record(d@),
{
    out.push(0x7B);
    out.push(0x22);
    out.push(0x6E);
    out.push(0x61);
    out.push(0x6D);
    out.push(0x65);
    out.push(0x22);
    out.push(0x3A);
    out.push(0x22);
    push_esc_bytes(out, d.name.as_str().as_bytes());
    out.push(0x22);
    out.push(0x2C);
    out.push(0x22);
    out.push(0x61);
    out.push(0x64);
    out.push(0x64);
    out.push(0x72);
    out.push(0x65);
    out.push(0x73);
    out.push(0x73);
    out.push(0x22);
    out.push(0x3A);
    out.push(0x22);
    push_esc_bytes(out, d.address.as_str().as_bytes());
    out.push(0x22);
    out.push(0x7D);
    assert(out@ =~= old(out)@ + spec_compact_record(d@));
}

impl CommandResponse {
    /// The response as one line of compact JSON: what structured/automated
    /// frontends print. The error code is one of the defined single-digit
    /// codes.
    #[verifier::rlimit(100)]
    #[verifier::spinoff_prover]
    pub fn to_json(&self) -> (r: Vec<u8>)
        requires
            0 <= self@.error_code <= 9,
        ensures
            r@ == spec_response_json(self@),
    {
        let mut out: Vec<u8> = Vec::new();
        out.push(0x7B);
        out.push(0x22);
        out.push(0x73);
        out.push(0x75);
        out.push(0x63);
        out.push(0x63);
        out.push(0x65);
        out.push(0x73);
        out.push(0x73);
        out.push(0x22);
        out.push(0x3A);
        if self.success {
            out.push(0x74);
            out.push(0x72);
            out.push(0x75);
            out.push(0x65);
        } else {
            out.push(0x66);
            out.push(0x61);
            out.push(0x6C);
            out.push(0x73);
            out.push(0x65);
        }
        out.push(0x2C);
        out.push(0x22);
        out.push(0x6D);
        out.push(0x65);
        out.push(0x73);
        out.push(0x73);
        out.push(0x61);
        out.push(0x67);
        out.push(0x65);
        out.push(0x22);
        out.push(0x3A);
        out.push(0x22);
        push_esc_bytes(&mut out, self.message.as_str().as_bytes());
        out.push(0x22);
        out.push(0x2C);
        out.push(0x22);
        out.push(0x64);
        out.push(0x65);
        out.push(0x76);
        out.push(0x69);
        out.push(0x63);
        out.push(0x65);
        out.push(0x73);
        out.push(0x22);
        out.push(0x3A);
        out.push(0x5B);
        let ghost mid = out@;
        let ghost devs = device_views(self.devices@);
        let mut i: usize = 0;
        while i < self.devices.len()
            invariant
                i <= self.devices.len(),
                devs == device_views(self.devices@),
                devs.len() == self.devices@.len(),
                i == 0 ==> out@ == mid,
                i >= 1 ==> out@ == mid + spec_compact_records(devs.take(i as int)),
            decreases self.devices.len() - i,
        {
            if i > 0 {
                out.push(0x2C);
            }
            push_compact_record(&mut out, &self.devices[i]);
            proof {
                assert(devs.take(i as int + 1) =~= devs.take(i as int).push(devs[i as int]));
                if i == 0 {
                    assert(devs.take(1) =~= seq![devs[0]]);
                    assert(spec_compact_records(seq![devs[0]]) == spec_compact_record(devs[0]));
                    assert(out@ =~= mid + spec_compact_records(devs.take(1)));
                } else {
                    lemma_compact_records_push(devs.take(i as int), devs[i as int]);
                    assert(out@ =~= mid + spec_compact_records(devs.take(i as int + 1)));
                }
            }
            i += 1;
        }
        proof {
            if self.devices@.len() == 0 {
                assert(spec_compact_records(devs) =~= Seq::<u8>::empty());
                assert(out@ =~= mid + spec_compact_records(devs));
            } else {
                assert(devs.take(devs.len() as int) =~= devs);
            }
        }
        out.push(0x5D);
        out.push(0x2C);
        out.push(0x22);
        out.push(0x65);
        out.push(0x72);
        out.push(0x72);
        out.push(0x6F);
        out.push(0x72);
        out.push(0x5F);
        out.push(0x63);
        out.push(0x6F);
        out.push(0x64);
        out.push(0x65);
        out.push(0x22);
        out.push(0x3A);
        out.push(0x30 + (self.error_code as u8));
        out.push(0x7D);
        assert(out@ =~= spec_response_json(self@));
        out
    }
}

} // verus!
