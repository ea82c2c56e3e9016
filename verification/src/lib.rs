//! Infrared remote-control codec stack for Lennox heat pumps driven through a
//! Broadlink blaster: pulse timing, wire format, link framing and control packets.

pub mod broadlink;
pub mod buffer;
pub mod duration;
pub mod lennox;
pub mod modem;
pub mod pwm;
pub mod smartir;
