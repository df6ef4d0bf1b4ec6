use vstd::prelude::*;

use crate::bytes::{u32_bytes, write_u32_be};

verus! {

/// Relies on rand::random: it returns some value of `T`; nothing is promised
/// about which.
pub assume_specification<T>[ rand::random::<T> ]() -> (r: T)
    where
        rand::distributions::Standard: rand::distributions::Distribution<T>,
;

/// Synchronization source identifier.
#[derive(Debug, Clone, Copy, PartialEq, Eq, Structural)]
pub struct SSRC(pub u32);

impl SSRC {
    /// A fresh identifier drawn at random.
    pub fn new() -> (r: SSRC) {
        SSRC(rand::random::<u32>())
    }

    pub fn from_u32(n: u32) -> (r: SSRC)
        ensures
            r.0 == n,
    {
        SSRC(n)
    }

    pub fn to_u32(&self) -> (r: u32)
        ensures
            r == self.0,
    {
        self.0
    }

    /// The identifier as four big-endian bytes.
    pub fn to_bytes(&self) -> (r: Vec<u8>)
        ensures
            r@ == u32_bytes(self.0),
    {
        let mut bytes: Vec<u8> = Vec::new();
        write_u32_be(&mut bytes, self.0);
        assert(bytes@ =~= u32_bytes(self.0));
        bytes
    }
}

/// Contributing source identifier.
#[derive(Debug, Clone, Copy, PartialEq, Eq, Structural)]
pub struct CSRC(pub u32);

impl CSRC {
    /// A fresh identifier drawn at random.
    pub fn new() -> (r: CSRC) {
        CSRC(rand::random::<u32>())
    }

    pub fn from_u32(n: u32) -> (r: CSRC)
        ensures
            r.0 == n,
    {
        CSRC(n)
    }

    pub fn to_u32(&self) -> (r: u32)
        ensures
            r == self.0,
    {
        self.0
    }

    /// The identifier as four big-endian bytes.
    pub fn to_bytes(&self) -> (r: Vec<u8>)
        ensures
            r@ == u32_bytes(self.0),
    {
        let mut bytes: Vec<u8> = Vec::new();
        write_u32_be(&mut bytes, self.0);
        assert(bytes@ =~= u32_bytes(self.0));
        bytes
    }
}

/// SDES item types; codes 12 to 255 are unassigned and keep their code.
#[allow(non_camel_case_types)]
#[derive(Debug, Clone, Copy, PartialEq, Eq, Structural)]
pub enum SDES_ITEM {
    END,
    CNAME,
    NAME,
    EMAIL,
    PHONE,
    LOC,
    TOOL,
    NOTE,
    PRIV,
    H323_CADDR,
    APSI,
    RGRP,
    UNASSIGNED(u8),
}

/// The wire code of an item type.
pub open spec fn item_code(k: SDES_ITEM) -> u8 {
    match k {
        SDES_ITEM::END => 0,
        SDES_ITEM::CNAME => 1,
        SDES_ITEM::NAME => 2,
        SDES_ITEM::EMAIL => 3,
        SDES_ITEM::PHONE => 4,
        SDES_ITEM::LOC => 5,
        SDES_ITEM::TOOL => 6,
        SDES_ITEM::NOTE => 7,
        SDES_ITEM::PRIV => 8,
        SDES_ITEM::H323_CADDR => 9,
        SDES_ITEM::APSI => 10,
        SDES_ITEM::RGRP => 11,
        SDES_ITEM::UNASSIGNED(n) => n,
    }
}

/// A type read from the wire: a named type below 12, else unassigned.
pub open spec fn item_of_code(n: u8) -> SDES_ITEM {
    if n == 0 {
        SDES_ITEM::END
    } else if n == 1 {
        SDES_ITEM::CNAME
    } else if n == 2 {
        SDES_ITEM::NAME
    } else if n == 3 {
        SDES_ITEM::EMAIL
    } else if n == 4 {
        SDES_ITEM::PHONE
    } else if n == 5 {
        SDES_ITEM::LOC
    } else if n == 6 {
        SDES_ITEM::TOOL
    } else if n == 7 {
        SDES_ITEM::NOTE
    } else if n == 8 {
        SDES_ITEM::PRIV
    } else if n == 9 {
        SDES_ITEM::H323_CADDR
    } else if n == 10 {
        SDES_ITEM::APSI
    } else if n == 11 {
        SDES_ITEM::RGRP
    } else {
        SDES_ITEM::UNASSIGNED(n)
    }
}

impl SDES_ITEM {
    pub fn to_u8(&self) -> (r: u8)
        ensures
            r == item_code(*self),
    {
        match *self {
            SDES_ITEM::END => 0,
            SDES_ITEM::CNAME => 1,
            SDES_ITEM::NAME => 2,
            SDES_ITEM::EMAIL => 3,
            SDES_ITEM::PHONE => 4,
            SDES_ITEM::LOC => 5,
            SDES_ITEM::TOOL => 6,
            SDES_ITEM::NOTE => 7,
            SDES_ITEM::PRIV => 8,
            SDES_ITEM::H323_CADDR => 9,
            SDES_ITEM::APSI => 10,
            SDES_ITEM::RGRP => 11,
            SDES_ITEM::UNASSIGNED(n) => n,
        }
    }

    /// The item type of a wire code; every code has one, so this never fails.
    pub fn from_u8(n: u8) -> (r: Result<SDES_ITEM, &'static str>)
        ensures
            r == Ok::<SDES_ITEM, &'static str>(item_of_code(n)),
            item_code(item_of_code(n)) == n,
    {
        let k = match n {
            0 => SDES_ITEM::END,
            1 => SDES_ITEM::CNAME,
            2 => SDES_ITEM::NAME,
            3 => SDES_ITEM::EMAIL,
            4 => SDES_ITEM::PHONE,
            5 => SDES_ITEM::LOC,
            6 => SDES_ITEM::TOOL,
            7 => SDES_ITEM::NOTE,
            8 => SDES_ITEM::PRIV,
            9 => SDES_ITEM::H323_CADDR,
            10 => SDES_ITEM::APSI,
            11 => SDES_ITEM::RGRP,
            _ => SDES_ITEM::UNASSIGNED(n),
        };
        Ok(k)
    }
}

} // verus!
