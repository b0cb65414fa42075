//! Decoding of CAN frames relayed by the adapter into scaled vehicle metrics.
use vstd::prelude::*;

verus! {

pub const CAN_ID_BRAKES: u16 = 0x085;

pub const CAN_ID_RPM_SPEED_ACCEL: u16 = 0x201;

pub const CAN_ID_COOLANT_THROTTLE_INTAKE: u16 = 0x240;

pub const CAN_ID_FUEL_LEVEL: u16 = 0x430;

pub const CAN_ID_WHEEL_SPEEDS: u16 = 0x4b0;

const BRAKE_PRESSURE_OFFSET: u16 = 102;

const BRAKE_PRESSURE_DIV: u16 = 5;

const RPM_DIV: u16 = 4;

const SPEED_DIV: u16 = 100;

const SPEED_OFFSET: u16 = 100;

const ACCEL_DIV: u8 = 2;

const TEMP_OFFSET: i16 = 40;

/// Byte `i` of a CAN payload, where byte 0 is the first one transmitted
/// (the most significant byte of `data`).
pub open spec fn payload_byte(data: u64, i: int) -> u8 {
    ((data >> ((56 - 8 * i) as u64)) & 0xff) as u8
}

/// The big-endian 16-bit value held by payload bytes `i` and `i + 1`.
pub open spec fn payload_word(data: u64, i: int) -> int {
    payload_byte(data, i) as int * 256 + payload_byte(data, i + 1) as int
}

/// `max(0, raw / 100 - 100)`, with truncating division.
pub open spec fn speed_kmh_of(raw: int) -> int {
    if raw / 100 > 100 {
        raw / 100 - 100
    } else {
        0
    }
}

/// `raw / 2.55`, truncated.
pub open spec fn pct_of(raw: int) -> int {
    raw * 100 / 255
}

/// `raw - 40`.
pub open spec fn temp_of(raw: int) -> int {
    raw - 40
}

/// A 16-bit word read as a two's complement signed value.
pub open spec fn signed16(w: int) -> int {
    if w >= 0x8000 {
        w - 0x10000
    } else {
        w
    }
}

/// `max(0, raw - 102) * 0.2`, truncated, and saturated to the range of a `u8`.
pub open spec fn brakes_pct_of(raw: int) -> int {
    let p = if raw > 102 {
        (raw - 102) / 5
    } else {
        0
    };
    if p > 255 {
        255
    } else {
        p
    }
}

/// Scaled physical quantities decoded from the vehicle's CAN traffic.
#[derive(Clone, Copy, Debug, PartialEq, Eq, Structural)]
pub struct Metrics {
    pub rpm: u16,
    pub speed_kmh: u16,
    pub engine_coolant_temp_c: i16,
    pub intake_air_temp_c: i16,
    pub fl_speed_kmh: u16,
    pub fr_speed_kmh: u16,
    pub rl_speed_kmh: u16,
    pub rr_speed_kmh: u16,
    pub accelerator_pedal_position_pct: u8,
    pub calculated_engine_load_pct: u8,
    pub throttle_valve_position_pct: u8,
    pub fuel_level_pct: u8,
    pub brakes_pct: u8,
}

impl Metrics {
    /// The record with every field at zero.
    pub open spec fn zeroed() -> Metrics {
        Metrics {
            rpm: 0,
            speed_kmh: 0,
            engine_coolant_temp_c: 0,
            intake_air_temp_c: 0,
            fl_speed_kmh: 0,
            fr_speed_kmh: 0,
            rl_speed_kmh: 0,
            rr_speed_kmh: 0,
            accelerator_pedal_position_pct: 0,
            calculated_engine_load_pct: 0,
            throttle_valve_position_pct: 0,
            fuel_level_pct: 0,
            brakes_pct: 0,
        }
    }

    /// The record after the CAN frame `(id, data)` has been applied to it:
    /// the fields that `id` carries are replaced, all others are kept, and
    /// an unknown `id` leaves the record unchanged.
    pub open spec fn decoded(self, id: u16, data: u64) -> Metrics {
        if id == CAN_ID_BRAKES {
            Metrics { brakes_pct: brakes_pct_of(signed16(payload_word(data, 6))) as u8, ..self }
        } else if id == CAN_ID_RPM_SPEED_ACCEL {
            Metrics {
                rpm: (payload_word(data, 6) / 4) as u16,
                speed_kmh: speed_kmh_of(payload_word(data, 2)) as u16,
                accelerator_pedal_position_pct: (payload_byte(data, 1) / 2) as u8,
                ..self
            }
        } else if id == CAN_ID_COOLANT_THROTTLE_INTAKE {
            Metrics {
                calculated_engine_load_pct: pct_of(payload_byte(data, 7) as int) as u8,
                engine_coolant_temp_c: temp_of(payload_byte(data, 6) as int) as i16,
                throttle_valve_position_pct: pct_of(payload_byte(data, 4) as int) as u8,
                intake_air_temp_c: temp_of(payload_byte(data, 3) as int) as i16,
                ..self
            }
        } else if id == CAN_ID_FUEL_LEVEL {
            Metrics { fuel_level_pct: pct_of(payload_byte(data, 7) as int) as u8, ..self }
        } else if id == CAN_ID_WHEEL_SPEEDS {
            Metrics {
                fl_speed_kmh: speed_kmh_of(payload_word(data, 6)) as u16,
                fr_speed_kmh: speed_kmh_of(payload_word(data, 4)) as u16,
                rl_speed_kmh: speed_kmh_of(payload_word(data, 2)) as u16,
                rr_speed_kmh: speed_kmh_of(payload_word(data, 0)) as u16,
                ..self
            }
        } else {
            self
        }
    }

    /// A record with every field at zero.
    pub fn new() -> (r: Metrics)
        ensures
            r == Metrics::zeroed(),
    {
        Metrics {
            rpm: 0,
            speed_kmh: 0,
            engine_coolant_temp_c: 0,
            intake_air_temp_c: 0,
            fl_speed_kmh: 0,
            fr_speed_kmh: 0,
            rl_speed_kmh: 0,
            rr_speed_kmh: 0,
            accelerator_pedal_position_pct: 0,
            calculated_engine_load_pct: 0,
            throttle_valve_position_pct: 0,
            fuel_level_pct: 0,
            brakes_pct: 0,
        }
    }

    /// Applies the CAN frame `(can_id, can_data)`; frames with an unknown
    /// identifier are ignored.
    pub fn handle_can_msg(&mut self, can_id: u16, can_data: u64)
        ensures
            *final(self) == old(self).decoded(can_id, can_data),
    {
        if can_id == CAN_ID_BRAKES {
            self.handle_brakes(can_data)
        } else if can_id == CAN_ID_RPM_SPEED_ACCEL {
            self.handle_rpm_speed_accel(can_data)
        } else if can_id == CAN_ID_COOLANT_THROTTLE_INTAKE {
            self.handle_load_coolant_throttle_intake(can_data)
        } else if can_id == CAN_ID_FUEL_LEVEL {
            self.handle_fuel_level(can_data)
        } else if can_id == CAN_ID_WHEEL_SPEEDS {
            self.handle_wheel_speeds(can_data)
        }
    }

    fn handle_brakes(&mut self, can_data: u64)
        ensures
            *final(self) == old(self).decoded(CAN_ID_BRAKES, can_data),
    {
        let brake_pressure = payload_u16(can_data, 6);
        // Pressure can momentarily read negative; it counts as zero.
        let pct: u16 = if brake_pressure >= 0x8000 || brake_pressure <= BRAKE_PRESSURE_OFFSET {
            0
        } else {
            (brake_pressure - BRAKE_PRESSURE_OFFSET) / BRAKE_PRESSURE_DIV
        };
        self.brakes_pct = if pct > 255 {
            255
        } else {
            pct as u8
        };
    }

    fn handle_rpm_speed_accel(&mut self, can_data: u64)
        ensures
            *final(self) == old(self).decoded(CAN_ID_RPM_SPEED_ACCEL, can_data),
    {
        let rpm = payload_u16(can_data, 6);
        self.rpm = rpm / RPM_DIV;

        let speed = payload_u16(can_data, 2);
        self.speed_kmh = raw_speed_to_kmh(speed);

        let accel = payload_u8(can_data, 1);
        self.accelerator_pedal_position_pct = accel / ACCEL_DIV;
    }

    fn handle_load_coolant_throttle_intake(&mut self, can_data: u64)
        ensures
            *final(self) == old(self).decoded(CAN_ID_COOLANT_THROTTLE_INTAKE, can_data),
    {
        let engine_load = payload_u8(can_data, 7);
        self.calculated_engine_load_pct = raw_to_pct(engine_load);

        let coolant_temp = payload_u8(can_data, 6) as i16;
        self.engine_coolant_temp_c = raw_to_temp(coolant_temp);

        let throttle_valve = payload_u8(can_data, 4);
        self.throttle_valve_position_pct = raw_to_pct(throttle_valve);

        let intake_temp = payload_u8(can_data, 3) as i16;
        self.intake_air_temp_c = raw_to_temp(intake_temp);
    }

    fn handle_fuel_level(&mut self, can_data: u64)
        ensures
            *final(self) == old(self).decoded(CAN_ID_FUEL_LEVEL, can_data),
    {
        let fuel_level = payload_u8(can_data, 7);
        self.fuel_level_pct = raw_to_pct(fuel_level);
    }

    fn handle_wheel_speeds(&mut self, can_data: u64)
        ensures
            *final(self) == old(self).decoded(CAN_ID_WHEEL_SPEEDS, can_data),
    {
        let fl = payload_u16(can_data, 6);
        self.fl_speed_kmh = raw_speed_to_kmh(fl);

        let fr = payload_u16(can_data, 4);
        self.fr_speed_kmh = raw_speed_to_kmh(fr);

        let rl = payload_u16(can_data, 2);
        self.rl_speed_kmh = raw_speed_to_kmh(rl);

        let rr = payload_u16(can_data, 0);
        self.rr_speed_kmh = raw_speed_to_kmh(rr);
    }
}

/// Byte `i` of the payload, byte 0 being the first one transmitted.
pub fn payload_u8(data: u64, i: u64) -> (r: u8)
    requires
        i < 8,
    ensures
        r == payload_byte(data, i as int),
{
    ((data >> (56 - 8 * i)) & 0xff) as u8
}

/// The big-endian word held by payload bytes `i` and `i + 1`.
pub fn payload_u16(data: u64, i: u64) -> (r: u16)
    requires
        i < 7,
    ensures
        r as int == payload_word(data, i as int),
{
    let hi = payload_u8(data, i) as u16;
    let lo = payload_u8(data, i + 1) as u16;
    hi * 256 + lo
}

/// Converts a raw speed reading to km/h: `max(0, raw / 100 - 100)`.
pub fn raw_speed_to_kmh(raw_speed: u16) -> (r: u16)
    ensures
        r as int == speed_kmh_of(raw_speed as int),
        r <= 555,
{
    let speed = raw_speed / SPEED_DIV;
    if speed > SPEED_OFFSET {
        speed - SPEED_OFFSET
    } else {
        0
    }
}

/// Converts a raw byte to a percentage: `raw / 2.55`, truncated.
pub fn raw_to_pct(raw: u8) -> (r: u8)
    ensures
        r as int == pct_of(raw as int),
        r <= 100,
{
    ((raw as u16 * 100) / 255) as u8
}

/// Converts a raw temperature reading to degrees Celsius: `raw - 40`.
pub fn raw_to_temp(raw: i16) -> (r: i16)
    requires
        raw >= i16::MIN + 40,
    ensures
        r as int == temp_of(raw as int),
{
    raw - TEMP_OFFSET
}

/// Decoding is a function of the frame alone: applying the same frame a
/// second time leaves the record as the first application left it.
pub proof fn lemma_decode_idempotent(m: Metrics, id: u16, data: u64)
    ensures
        m.decoded(id, data).decoded(id, data) == m.decoded(id, data),
{
}

} // verus!
