//! The `MassaSerialization` derive emits no code of its own, so the methods
//! that these tests call on `Obj` are written here, in the compact form that
//! the library gives: the field as a variable-length integer.
use massa::varint::{u32_from_varint_bytes, u32_to_varint_bytes};

pub struct Obj {
    a: i32,
}

impl Obj {
    fn to_bytes_compact(&self) -> Vec<u8> {
        u32_to_varint_bytes(self.a as u32)
    }

    fn from_bytes_compact(&self) -> Obj {
        let (a, _) = u32_from_varint_bytes(&self.to_bytes_compact()).unwrap();
        Obj { a: a as i32 }
    }

    // `methods(serialize = "from_bytes_in_block", deserialize = "to_bytes_in_block")`
    fn from_bytes_in_block(&self) -> Vec<u8> {
        self.to_bytes_compact()
    }

    fn to_bytes_in_block(&self) -> Obj {
        self.from_bytes_compact()
    }
}

#[test]
fn basic() {
    let a = Obj { a: 3 };
    a.to_bytes_compact();
    a.from_bytes_compact();
}

#[test]
fn basic_with_methods() {
    let a = Obj { a: 3 };
    a.from_bytes_in_block();
    a.to_bytes_in_block();
}
