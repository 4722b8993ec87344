use vstd::prelude::*;

verus! {

/// Mask of the sign bit of a binary64 value.
pub const SIGN_MASK: u64 = 0x8000_0000_0000_0000;

/// Mask of the fraction bits of a binary64 value.
pub const FRACTION_MASK: u64 = 0x000f_ffff_ffff_ffff;

/// All exponent bits set, after shifting the exponent field down.
pub const EXPONENT_ALL_ONES: u64 = 0x7ff;

/// Call sign used when a unit's call sign cannot be resolved.
pub const DEFAULT_CALL_SIGN: &'static str = "NFS Asker&Baerum";

pub const STATUS_AIRBORNE: &'static str = "AIRBORNE";

pub const STATUS_GROUNDED: &'static str = "GROUNDED";

/// The binary64 value with bit pattern `b` is a NaN.
pub open spec fn is_nan_bits(b: u64) -> bool {
    (b >> 52u64) & EXPONENT_ALL_ONES == EXPONENT_ALL_ONES && b & FRACTION_MASK != 0
}

/// The binary64 value with bit pattern `b` compares greater than zero:
/// the sign is clear, it is not a zero and it is not a NaN.
pub open spec fn is_positive_bits(b: u64) -> bool {
    b & SIGN_MASK == 0 && b != 0 && !is_nan_bits(b)
}

/// Bit pattern of the absolute value of the binary64 value `b`.
pub open spec fn abs_bits_spec(b: u64) -> u64 {
    b & !SIGN_MASK
}

/// Status label for an elevation given as a binary64 bit pattern.
pub open spec fn status_label(elevation: u64) -> Seq<char> {
    if is_positive_bits(elevation) {
        STATUS_AIRBORNE@
    } else {
        STATUS_GROUNDED@
    }
}

pub fn is_positive(b: u64) -> (r: bool)
    ensures
        r == is_positive_bits(b),
{
    let exponent = (b >> 52u64) & EXPONENT_ALL_ONES;
    let nan = exponent == EXPONENT_ALL_ONES && b & FRACTION_MASK != 0;
    b & SIGN_MASK == 0 && b != 0 && !nan
}

pub fn abs_bits(b: u64) -> (r: u64)
    ensures
        r == abs_bits_spec(b),
{
    b & !SIGN_MASK
}

/// One position report of a unit. Numeric fields are binary64 bit patterns.
pub struct Telemetry {
    pub sn: String,
    pub latitude: u64,
    pub longitude: u64,
    pub height: u64,
    pub elevation: u64,
    pub attitude_head: u64,
    pub horizontal_speed: u64,
    pub vertical_speed: u64,
}

/// Status of one unit as dispatched downstream. Numeric fields are binary64
/// bit patterns; `last_update_millis` is milliseconds since the Unix epoch.
pub struct UavStatus {
    pub id: String,
    pub call_sign: String,
    pub latitude: u64,
    pub longitude: u64,
    pub altitude: u64,
    pub status: String,
    pub course: u64,
    pub ground_speed: u64,
    pub vertical_rate: u64,
    pub last_update_millis: i64,
}

/// `s` is the status projected from `t` with the given course and call sign,
/// whatever its timestamp.
pub open spec fn projects(
    s: UavStatus,
    t: Telemetry,
    course: Option<u64>,
    call_sign: Option<Seq<char>>,
) -> bool {
    &&& s.id@ == t.sn@
    &&& s.call_sign@ == match call_sign {
        Some(c) => c,
        None => DEFAULT_CALL_SIGN@,
    }
    &&& s.latitude == t.latitude
    &&& s.longitude == t.longitude
    &&& s.altitude == t.height
    &&& s.status@ == status_label(t.elevation)
    &&& s.course == match course {
        Some(c) => c,
        None => abs_bits_spec(t.attitude_head),
    }
    &&& s.ground_speed == t.horizontal_speed
    &&& s.vertical_rate == t.vertical_speed
}

pub open spec fn option_view(o: Option<String>) -> Option<Seq<char>> {
    match o {
        Some(s) => Some(s@),
        None => None,
    }
}

impl UavStatus {
    /// "AIRBORNE" when the elevation is greater than zero, else "GROUNDED".
    pub fn get_status(elevation: u64) -> (r: String)
        ensures
            r@ == status_label(elevation),
    {
        if is_positive(elevation) {
            STATUS_AIRBORNE.to_owned()
        } else {
            STATUS_GROUNDED.to_owned()
        }
    }

    /// Projects a report into a status stamped with `now_millis`,
    /// milliseconds since the Unix epoch.
    pub fn from_telemetry(
        telemetry: &Telemetry,
        course: Option<u64>,
        call_sign: Option<String>,
        now_millis: i64,
    ) -> (r: UavStatus)
        ensures
            projects(r, *telemetry, course, option_view(call_sign)),
            r.last_update_millis == now_millis,
    {
        let call_sign = match call_sign {
            Some(c) => c,
            None => DEFAULT_CALL_SIGN.to_owned(),
        };
        let course = match course {
            Some(c) => c,
            None => abs_bits(telemetry.attitude_head),
        };
        UavStatus {
            id: telemetry.sn.clone(),
            call_sign,
            latitude: telemetry.latitude,
            longitude: telemetry.longitude,
            altitude: telemetry.height,
            status: Self::get_status(telemetry.elevation),
            course,
            ground_speed: telemetry.horizontal_speed,
            vertical_rate: telemetry.vertical_speed,
            last_update_millis: now_millis,
        }
    }
}

/// The label is "AIRBORNE" exactly for elevations greater than zero; both
/// zeros, negative values and NaN give "GROUNDED".
pub proof fn lemma_status_label(elevation: u64)
    ensures
        status_label(elevation) == STATUS_AIRBORNE@ <==> is_positive_bits(elevation),
        elevation == 0 ==> status_label(elevation) == STATUS_GROUNDED@,
        elevation == SIGN_MASK ==> status_label(elevation) == STATUS_GROUNDED@,
{
    reveal_strlit("AIRBORNE");
    reveal_strlit("GROUNDED");
    assert(STATUS_AIRBORNE@ != STATUS_GROUNDED@) by {
        assert(STATUS_AIRBORNE@[0] != STATUS_GROUNDED@[0]);
    }
    assert(SIGN_MASK & SIGN_MASK != 0) by (bit_vector);
}

} // verus!
