use vstd::prelude::*;

verus! {

/// Lowering to the 32-bit representation the boundary's calling convention
/// carries: the value's two's-complement image in an `i32`.
pub trait AsI32 {
    /// The two's-complement image this lowering produces.
    spec fn as_i32_spec(self) -> i32;

    fn as_i32(self) -> (r: i32)
        ensures
            r == self.as_i32_spec(),
    ;
}

/// Lowering to the 64-bit representation the boundary's calling convention
/// carries: the value's two's-complement image in an `i64`.
pub trait AsI64 {
    /// The two's-complement image this lowering produces.
    spec fn as_i64_spec(self) -> i64;

    fn as_i64(self) -> (r: i64)
        ensures
            r == self.as_i64_spec(),
    ;
}

/// Lowers a value through its `AsI32` image.
pub fn as_i32<T: AsI32>(t: T) -> (r: i32)
    ensures
        r == t.as_i32_spec(),
{
    t.as_i32()
}

/// Lowers a value through its `AsI64` image.
pub fn as_i64<T: AsI64>(t: T) -> (r: i64)
    ensures
        r == t.as_i64_spec(),
{
    t.as_i64()
}

impl AsI32 for i32 {
    open spec fn as_i32_spec(self) -> i32 {
        self
    }

    fn as_i32(self) -> i32 {
        self
    }
}

impl AsI32 for u32 {
    open spec fn as_i32_spec(self) -> i32 {
        if self <= 0x7FFF_FFFF {
            self as i32
        } else {
            (self - 0x1_0000_0000) as i32
        }
    }

    fn as_i32(self) -> i32 {
        if self <= 0x7FFF_FFFF {
            self as i32
        } else {
            ((self as i64) - 0x1_0000_0000i64) as i32
        }
    }
}

impl AsI32 for i16 {
    open spec fn as_i32_spec(self) -> i32 {
        self as i32
    }

    fn as_i32(self) -> i32 {
        self as i32
    }
}

impl AsI32 for u16 {
    open spec fn as_i32_spec(self) -> i32 {
        self as i32
    }

    fn as_i32(self) -> i32 {
        self as i32
    }
}

impl AsI32 for i8 {
    open spec fn as_i32_spec(self) -> i32 {
        self as i32
    }

    fn as_i32(self) -> i32 {
        self as i32
    }
}

impl AsI32 for u8 {
    open spec fn as_i32_spec(self) -> i32 {
        self as i32
    }

    fn as_i32(self) -> i32 {
        self as i32
    }
}

impl AsI32 for char {
    open spec fn as_i32_spec(self) -> i32 {
        (self as u32) as i32
    }

    fn as_i32(self) -> i32 {
        (self as u32) as i32
    }
}

impl AsI32 for usize {
    open spec fn as_i32_spec(self) -> i32 {
        let low = (self as u64) % 0x1_0000_0000;
        if low <= 0x7FFF_FFFF {
            low as i32
        } else {
            (low - 0x1_0000_0000) as i32
        }
    }

    fn as_i32(self) -> i32 {
        let low: u64 = (self as u64) % 0x1_0000_0000u64;
        if low <= 0x7FFF_FFFF {
            low as i32
        } else {
            ((low as i64) - 0x1_0000_0000i64) as i32
        }
    }
}

impl AsI64 for i64 {
    open spec fn as_i64_spec(self) -> i64 {
        self
    }

    fn as_i64(self) -> i64 {
        self
    }
}

impl AsI64 for u64 {
    open spec fn as_i64_spec(self) -> i64 {
        if self <= 0x7FFF_FFFF_FFFF_FFFF {
            self as i64
        } else {
            (self - 0x1_0000_0000_0000_0000) as i64
        }
    }

    fn as_i64(self) -> i64 {
        if self <= 0x7FFF_FFFF_FFFF_FFFF {
            self as i64
        } else {
            ((self - 0x8000_0000_0000_0000u64) as i64) + i64::MIN
        }
    }
}

} // verus!
