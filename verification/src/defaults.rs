//! The default value of every configuration field.
//!
//! Each default is a pure function of no input, so that a reference
//! defaults document can be generated and held against a committed copy.

use vstd::prelude::*;
use vstd::string::*;

use crate::ip::{IpAddress, Ipv4Address};
use crate::schema::{Address, AddressView, ConfigView, views_of};

verus! {

/// The default endpoint: localhost and some random unprivileged port.
pub open spec fn spec_default_address() -> AddressView {
    AddressView::Tcp(IpAddress::V4(Ipv4Address(127, 0, 0, 1)), 27631)
}

/// The default configuration record.
pub open spec fn spec_default_config() -> ConfigView {
    ConfigView {
        instance_timeout: Some(300u32),
        gc_interval: 10,
        listen: spec_default_address(),
        connect: spec_default_address(),
        log_filters: "info"@,
        log_mode: "terminal"@,
        pass_environment: Seq::empty(),
    }
}

/// 5 minutes.
pub fn instance_timeout() -> (r: Option<u32>)
    ensures
        r == Some(300u32),
{
    Some(5 * 60)
}

/// 10 seconds.
pub fn gc_interval() -> (r: u32)
    ensures
        r == 10,
{
    10
}

/// Localhost and some random unprivileged port.
pub fn listen() -> (r: Address)
    ensures
        r@ == spec_default_address(),
{
    Address::Tcp(IpAddress::V4(Ipv4Address(127, 0, 0, 1)), 27_631)
}

pub fn connect() -> (r: Address)
    ensures
        r@ == spec_default_address(),
{
    listen()
}

pub fn log_filters() -> (r: String)
    ensures
        r@ == "info"@,
{
    String::from_str("info")
}

pub fn log_mode() -> (r: String)
    ensures
        r@ == "terminal"@,
{
    String::from_str("terminal")
}

pub fn pass_environment() -> (r: Vec<String>)
    ensures
        views_of(r@) == Seq::<Seq<char>>::empty(),
{
    let r = Vec::new();
    proof {
        assert(views_of(r@) =~= Seq::<Seq<char>>::empty());
    }
    r
}

} // verus!
