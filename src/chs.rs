//! Cylinder / head / sector / size-code addressing.

use vstd::prelude::*;

verus! {

/// Byte length of a sector whose System/34 size code is `n`: 128 * 2^n.
pub open spec fn sector_size(n: nat) -> nat
    decreases n,
{
    if n == 0 {
        128
    } else {
        2 * sector_size((n - 1) as nat)
    }
}

proof fn lemma_sector_size_grows(i: nat, j: nat)
    requires
        i <= j,
    ensures
        sector_size(i) <= sector_size(j),
    decreases j,
{
    if i < j {
        lemma_sector_size_grows(i, (j - 1) as nat);
    }
}

/// A physical track address.
#[derive(Clone, Copy, Debug, PartialEq, Eq, Structural, Hash)]
pub struct DiskCh {
    pub c: u16,
    pub h: u8,
}

impl DiskCh {
    pub fn new(c: u16, h: u8) -> (r: DiskCh)
        ensures
            r.c == c,
            r.h == h,
    {
        DiskCh { c, h }
    }

    pub fn c(&self) -> (r: u16)
        ensures
            r == self.c,
    {
        self.c
    }

    pub fn h(&self) -> (r: u8)
        ensures
            r == self.h,
    {
        self.h
    }
}

/// A cylinder / head / sector address, as claimed by a sector's ID field.
#[derive(Clone, Copy, Debug, PartialEq, Eq, Structural, Hash)]
pub struct DiskChs {
    pub c: u16,
    pub h: u8,
    pub s: u8,
}

impl DiskChs {
    pub fn new(c: u16, h: u8, s: u8) -> (r: DiskChs)
        ensures
            r.c == c,
            r.h == h,
            r.s == s,
    {
        DiskChs { c, h, s }
    }

    pub fn c(&self) -> (r: u16)
        ensures
            r == self.c,
    {
        self.c
    }

    pub fn h(&self) -> (r: u8)
        ensures
            r == self.h,
    {
        self.h
    }

    pub fn s(&self) -> (r: u8)
        ensures
            r == self.s,
    {
        self.s
    }
}

/// A full sector identity: cylinder, head, sector and size code.
#[derive(Clone, Copy, Debug, PartialEq, Eq, Structural, Hash)]
pub struct DiskChsn {
    pub c: u16,
    pub h: u8,
    pub s: u8,
    pub n: u8,
}

impl DiskChsn {
    pub fn new(c: u16, h: u8, s: u8, n: u8) -> (r: DiskChsn)
        ensures
            r == (DiskChsn { c, h, s, n }),
    {
        DiskChsn { c, h, s, n }
    }

    pub fn c(&self) -> (r: u16)
        ensures
            r == self.c,
    {
        self.c
    }

    pub fn h(&self) -> (r: u8)
        ensures
            r == self.h,
    {
        self.h
    }

    pub fn s(&self) -> (r: u8)
        ensures
            r == self.s,
    {
        self.s
    }

    pub fn n(&self) -> (r: u8)
        ensures
            r == self.n,
    {
        self.n
    }

    /// The cylinder / head / sector part of the identity.
    pub fn chs(&self) -> (r: DiskChs)
        ensures
            r == (DiskChs { c: self.c, h: self.h, s: self.s }),
    {
        DiskChs { c: self.c, h: self.h, s: self.s }
    }

    /// Whether `len` bytes is exactly the size that the code `n` stands for.
    pub fn size_matches(n: u8, len: usize) -> (r: bool)
        ensures
            r == (len as nat == sector_size(n as nat)),
    {
        let mut size: u128 = 128;
        let mut i: u8 = 0;
        while i < n
            invariant
                i <= n,
                size as nat == sector_size(i as nat),
                size <= 2 * (len as u128) + 256,
            decreases n - i,
        {
            if size > len as u128 {
                proof {
                    lemma_sector_size_grows(i as nat, n as nat);
                }
                return false;
            }
            size = size * 2;
            i = i + 1;
        }
        size == len as u128
    }
}

/// A sector search key: the cylinder, head and sector that a sector's ID field
/// should claim, and optionally its size code (absent: any size).
#[derive(Clone, Copy, Debug, PartialEq, Eq, Structural, Hash)]
pub struct DiskChsnQuery {
    pub c: u16,
    pub h: u8,
    pub s: u8,
    pub n: Option<u8>,
}

impl DiskChsnQuery {
    pub fn new(c: u16, h: u8, s: u8, n: Option<u8>) -> (r: DiskChsnQuery)
        ensures
            r == (DiskChsnQuery { c, h, s, n }),
    {
        DiskChsnQuery { c, h, s, n }
    }

    pub fn chs(&self) -> (r: DiskChs)
        ensures
            r == (DiskChs { c: self.c, h: self.h, s: self.s }),
    {
        DiskChs { c: self.c, h: self.h, s: self.s }
    }
}

} // verus!
