//! Generation tests: each one registers a type graph directly and holds
//! the emitted text to the byte.

use roc_bindgen::emit::write_types;
use roc_bindgen::types::Field;
use roc_bindgen::types::Primitive;
use roc_bindgen::types::StructuralType;
use roc_bindgen::types::TypeArena;
use roc_bindgen::types::Variant;

fn field(name: &str, ty: usize) -> Field {
    Field { name: name.to_string(), ty }
}

fn variant(name: &str, payloads: Vec<usize>) -> Variant {
    Variant { name: name.to_string(), payloads }
}

fn generate(arena: &TypeArena, root: usize) -> String {
    let out = write_types(arena, root);
    out.strip_prefix('\n').unwrap_or_default().to_string()
}

#[test]
fn record_aliased() {
    let mut arena = TypeArena::new();
    let u64_id = arena.register(StructuralType::Primitive(Primitive::U64), None);
    let u128_id = arena.register(StructuralType::Primitive(Primitive::U128), None);
    let root = arena.register(
        StructuralType::Record(vec![field("a", u64_id), field("b", u128_id)]),
        Some("MyRcd".to_string()),
    );
    assert_eq!(generate(&arena, root), r#"#[derive(Clone, Copy, Debug, Default, Eq, Ord, Hash, PartialEq, PartialOrd)]
#[repr(C)]
pub struct MyRcd {
    b: u128,
    a: u64,
}
"#);
}

#[test]
fn nested_record_aliased() {
    let mut arena = TypeArena::new();
    let u16_id = arena.register(StructuralType::Primitive(Primitive::U16), None);
    let f32_id = arena.register(StructuralType::Primitive(Primitive::F32), None);
    let inner = arena.register(
        StructuralType::Record(vec![field("a", u16_id), field("b", f32_id)]),
        Some("Inner".to_string()),
    );
    let str_id = arena.register(StructuralType::Text, None);
    let u8_id = arena.register(StructuralType::Primitive(Primitive::U8), None);
    let list_u8 = arena.register(StructuralType::Sequence(u8_id), None);
    let root = arena.register(
        StructuralType::Record(vec![
            field("x", inner),
            field("y", str_id),
            field("z", list_u8),
        ]),
        Some("Outer".to_string()),
    );
    assert_eq!(generate(&arena, root), r#"#[derive(Clone, Debug, Default, PartialEq, PartialOrd)]
#[repr(C)]
pub struct Outer {
    y: roc_std::RocStr,
    z: roc_std::RocList<u8>,
    x: Inner,
}

#[derive(Clone, Copy, Debug, Default, PartialEq, PartialOrd)]
#[repr(C)]
pub struct Inner {
    b: f32,
    a: u16,
}
"#);
}

#[test]
fn record_anonymous() {
    let mut arena = TypeArena::new();
    let u64_id = arena.register(StructuralType::Primitive(Primitive::U64), None);
    let u128_id = arena.register(StructuralType::Primitive(Primitive::U128), None);
    let root = arena.register(
        StructuralType::Record(vec![field("a", u64_id), field("b", u128_id)]),
        None,
    );
    assert_eq!(generate(&arena, root), r#"#[derive(Clone, Copy, Debug, Default, Eq, Ord, Hash, PartialEq, PartialOrd)]
#[repr(C)]
pub struct R1 {
    b: u128,
    a: u64,
}
"#);
}

#[test]
fn nested_record_anonymous() {
    let mut arena = TypeArena::new();
    let u16_id = arena.register(StructuralType::Primitive(Primitive::U16), None);
    let f32_id = arena.register(StructuralType::Primitive(Primitive::F32), None);
    let inner = arena.register(
        StructuralType::Record(vec![field("a", u16_id), field("b", f32_id)]),
        None,
    );
    let str_id = arena.register(StructuralType::Text, None);
    let u8_id = arena.register(StructuralType::Primitive(Primitive::U8), None);
    let list_u8 = arena.register(StructuralType::Sequence(u8_id), None);
    let root = arena.register(
        StructuralType::Record(vec![
            field("x", inner),
            field("y", str_id),
            field("z", list_u8),
        ]),
        None,
    );
    assert_eq!(generate(&arena, root), r#"#[derive(Clone, Debug, Default, PartialEq, PartialOrd)]
#[repr(C)]
pub struct R1 {
    y: roc_std::RocStr,
    z: roc_std::RocList<u8>,
    x: R2,
}

#[derive(Clone, Copy, Debug, Default, PartialEq, PartialOrd)]
#[repr(C)]
pub struct R2 {
    b: f32,
    a: u16,
}
"#);
}

#[test]
fn tag_union_aliased() {
    let mut arena = TypeArena::new();
    let str_id = arena.register(StructuralType::Text, None);
    let u128_id = arena.register(StructuralType::Primitive(Primitive::U128), None);
    let i32_id = arena.register(StructuralType::Primitive(Primitive::I32), None);
    let root = arena.register(
        StructuralType::TagUnion(vec![
            variant("Foo", vec![str_id]),
            variant("Bar", vec![u128_id]),
            variant("Blah", vec![i32_id]),
            variant("Baz", vec![]),
        ]),
        Some("MyTagUnion".to_string()),
    );
    assert_eq!(generate(&arena, root), r#"#[derive(Clone, Copy, Debug, Eq, Ord, Hash, PartialEq, PartialOrd)]
#[repr(u8)]
pub enum tag_MyTagUnion {
    Bar = 0,
    Baz = 1,
    Blah = 2,
    Foo = 3,
}

#[repr(C)]
pub union union_MyTagUnion {
    Bar: u128,
    Blah: i32,
    Foo: core::mem::ManuallyDrop<roc_std::RocStr>,
}

#[repr(C)]
pub struct MyTagUnion {
    variant: union_MyTagUnion,
    tag: tag_MyTagUnion,
}

impl MyTagUnion {
    pub fn tag(&self) -> tag_MyTagUnion {
        self.tag
    }

    /// Construct a tag named Bar, with the appropriate payload
    pub fn Bar(payload: u128) -> Self {
        Self {
            tag: tag_MyTagUnion::Bar,
            variant: union_MyTagUnion {
                Bar: payload
            },
        }
    }

    /// Unsafely assume the given MyTagUnion has a .tag() of Bar and convert it to Bar's payload.
    /// (always examine .tag() first to make sure this is the correct variant!)
    pub unsafe fn into_Bar(self) -> u128 {
        self.variant.Bar
    }

    /// Unsafely assume the given MyTagUnion has a .tag() of Bar and return its payload.
    /// (always examine .tag() first to make sure this is the correct variant!)
    pub unsafe fn as_Bar(&self) -> u128 {
        self.variant.Bar
    }

    /// Construct a tag named Baz
    pub fn Baz() -> Self {
        Self {
            tag: tag_MyTagUnion::Baz,
            variant: unsafe {
                core::mem::transmute::<
                    core::mem::MaybeUninit<union_MyTagUnion>,
                    union_MyTagUnion,
                >(core::mem::MaybeUninit::uninit())
            },
        }
    }

    /// Other `into_` methods return a payload, but since the Baz tag
    /// has no payload, this does nothing and is only here for completeness.
    pub fn into_Baz(self) -> () {
        ()
    }

    /// Other `as` methods return a payload, but since the Baz tag
    /// has no payload, this does nothing and is only here for completeness.
    pub unsafe fn as_Baz(&self) -> () {
        ()
    }

    /// Construct a tag named Blah, with the appropriate payload
    pub fn Blah(payload: i32) -> Self {
        Self {
            tag: tag_MyTagUnion::Blah,
            variant: union_MyTagUnion {
                Blah: payload
            },
        }
    }

    /// Unsafely assume the given MyTagUnion has a .tag() of Blah and convert it to Blah's payload.
    /// (always examine .tag() first to make sure this is the correct variant!)
    pub unsafe fn into_Blah(self) -> i32 {
        self.variant.Blah
    }

    /// Unsafely assume the given MyTagUnion has a .tag() of Blah and return its payload.
    /// (always examine .tag() first to make sure this is the correct variant!)
    pub unsafe fn as_Blah(&self) -> i32 {
        self.variant.Blah
    }

    /// Construct a tag named Foo, with the appropriate payload
    pub fn Foo(payload: roc_std::RocStr) -> Self {
        Self {
            tag: tag_MyTagUnion::Foo,
            variant: union_MyTagUnion {
                Foo: core::mem::ManuallyDrop::new(payload)
            },
        }
    }

    /// Unsafely assume the given MyTagUnion has a .tag() of Foo and convert it to Foo's payload.
    /// (always examine .tag() first to make sure this is the correct variant!)
    pub unsafe fn into_Foo(mut self) -> roc_std::RocStr {
        core::mem::ManuallyDrop::take(&mut self.variant.Foo)
    }

    /// Unsafely assume the given MyTagUnion has a .tag() of Foo and return its payload.
    /// (always examine .tag() first to make sure this is the correct variant!)
    pub unsafe fn as_Foo(&self) -> &roc_std::RocStr {
        &self.variant.Foo
    }
}

impl Drop for MyTagUnion {
    fn drop(&mut self) {
        match self.tag {
            tag_MyTagUnion::Bar => {}
            tag_MyTagUnion::Baz => {}
            tag_MyTagUnion::Blah => {}
            tag_MyTagUnion::Foo => unsafe { core::mem::ManuallyDrop::drop(&mut self.variant.Foo) },
        }
    }
}

impl PartialEq for MyTagUnion {
    fn eq(&self, other: &Self) -> bool {
        if self.tag != other.tag {
            return false;
        }

        unsafe {
            match self.tag {
                tag_MyTagUnion::Bar => self.variant.Bar == other.variant.Bar,
                tag_MyTagUnion::Baz => true,
                tag_MyTagUnion::Blah => self.variant.Blah == other.variant.Blah,
                tag_MyTagUnion::Foo => self.variant.Foo == other.variant.Foo,
            }
        }
    }
}

impl Eq for MyTagUnion {}

impl PartialOrd for MyTagUnion {
    fn partial_cmp(&self, other: &Self) -> Option<core::cmp::Ordering> {
        match self.tag.partial_cmp(&other.tag) {
            Some(core::cmp::Ordering::Equal) => {}
            not_eq => return not_eq,
        }

        unsafe {
            match self.tag {
                tag_MyTagUnion::Bar => self.variant.Bar.partial_cmp(&other.variant.Bar),
                tag_MyTagUnion::Baz => Some(core::cmp::Ordering::Equal),
                tag_MyTagUnion::Blah => self.variant.Blah.partial_cmp(&other.variant.Blah),
                tag_MyTagUnion::Foo => self.variant.Foo.partial_cmp(&other.variant.Foo),
            }
        }
    }
}

impl Ord for MyTagUnion {
    fn cmp(&self, other: &Self) -> core::cmp::Ordering {
        match self.tag.cmp(&other.tag) {
            core::cmp::Ordering::Equal => {}
            not_eq => return not_eq,
        }

        unsafe {
            match self.tag {
                tag_MyTagUnion::Bar => self.variant.Bar.cmp(&other.variant.Bar),
                tag_MyTagUnion::Baz => core::cmp::Ordering::Equal,
                tag_MyTagUnion::Blah => self.variant.Blah.cmp(&other.variant.Blah),
                tag_MyTagUnion::Foo => self.variant.Foo.cmp(&other.variant.Foo),
            }
        }
    }
}

impl Clone for MyTagUnion {
    fn clone(&self) -> Self {
        match self.tag {
            tag_MyTagUnion::Bar => Self {
                variant: union_MyTagUnion {
                    Bar: unsafe { self.variant.Bar.clone() },
                },
                tag: tag_MyTagUnion::Bar,
            },
            tag_MyTagUnion::Baz => Self {
                variant: unsafe {
                    core::mem::transmute::<
                        core::mem::MaybeUninit<union_MyTagUnion>,
                        union_MyTagUnion,
                    >(core::mem::MaybeUninit::uninit())
                },
                tag: tag_MyTagUnion::Baz,
            },
            tag_MyTagUnion::Blah => Self {
                variant: union_MyTagUnion {
                    Blah: unsafe { self.variant.Blah.clone() },
                },
                tag: tag_MyTagUnion::Blah,
            },
            tag_MyTagUnion::Foo => Self {
                variant: union_MyTagUnion {
                    Foo: unsafe { self.variant.Foo.clone() },
                },
                tag: tag_MyTagUnion::Foo,
            },
        }
    }
}

impl core::fmt::Debug for MyTagUnion {
    fn fmt(&self, f: &mut core::fmt::Formatter<'_>) -> core::fmt::Result {
        f.write_str("MyTagUnion::")?;

        unsafe {
            match self.tag {
                tag_MyTagUnion::Bar => f.debug_tuple("Bar").field(&self.variant.Bar).finish(),
                tag_MyTagUnion::Baz => f.write_str("Baz"),
                tag_MyTagUnion::Blah => f.debug_tuple("Blah").field(&self.variant.Blah).finish(),
                tag_MyTagUnion::Foo => f.debug_tuple("Foo").field(&self.variant.Foo).finish(),
            }
        }
    }
}

"#);
}

#[test]
fn tag_union_enumeration() {
    let mut arena = TypeArena::new();
    let root = arena.register(
        StructuralType::TagUnion(vec![
            variant("Blah", vec![]),
            variant("Foo", vec![]),
            variant("Bar", vec![]),
        ]),
        Some("MyTagUnion".to_string()),
    );
    assert_eq!(generate(&arena, root), r#"#[derive(Clone, Copy, Debug, Eq, Ord, Hash, PartialEq, PartialOrd)]
#[repr(u8)]
pub enum MyTagUnion {
    Bar = 0,
    Blah = 1,
    Foo = 2,
}
"#);
}

#[test]
fn single_tag_union_with_payloads() {
    let mut arena = TypeArena::new();
    let u32_id = arena.register(StructuralType::Primitive(Primitive::U32), None);
    let str_id = arena.register(StructuralType::Text, None);
    let root = arena.register(
        StructuralType::TagUnion(vec![variant("Id", vec![u32_id, str_id])]),
        Some("UserId".to_string()),
    );
    assert_eq!(generate(&arena, root), r#"#[derive(Clone, Debug, Default, Eq, Ord, Hash, PartialEq, PartialOrd)]
#[repr(C)]
pub struct UserId {
    f1: roc_std::RocStr,
    f0: u32,
}
"#);
}

#[test]
fn single_tag_union_with_one_payload_field() {
    let mut arena = TypeArena::new();
    let str_id = arena.register(StructuralType::Text, None);
    let root = arena.register(
        StructuralType::TagUnion(vec![variant("Id", vec![str_id])]),
        Some("UserId".to_string()),
    );
    assert_eq!(generate(&arena, root), r#"#[derive(Clone, Debug, Default, Eq, Ord, Hash, PartialEq, PartialOrd)]
#[repr(transparent)]
pub struct UserId(roc_std::RocStr);
"#);
}

#[test]
fn cons_list_of_strings() {
    let mut arena = TypeArena::new();
    let str_id = arena.register(StructuralType::Text, None);
    let self_id = arena.register(StructuralType::SelfReference, None);
    let root = arena.register(
        StructuralType::TagUnion(vec![
            variant("Nil", vec![]),
            variant("Cons", vec![str_id, self_id]),
        ]),
        Some("StrConsList".to_string()),
    );
    assert_eq!(generate(&arena, root), r#"#[derive(Clone, Copy, Debug, Eq, Ord, Hash, PartialEq, PartialOrd)]
#[repr(u8)]
pub enum tag_StrConsList {
    Cons = 0,
    Nil = 1,
}

#[repr(C)]
pub struct StrConsList {
    pointer: *mut core::mem::ManuallyDrop<roc_std::RocStr>,
}

impl StrConsList {
    pub fn tag(&self) -> tag_StrConsList {
        if self.pointer.is_null() {
            tag_StrConsList::Nil
        } else {
            tag_StrConsList::Cons
        }
    }

    /// Construct a tag named Cons, with the appropriate payload
    pub fn Cons(payload: roc_std::RocStr) -> Self {
        let size = core::mem::size_of::<roc_std::RocStr>();
        let align = core::mem::align_of::<roc_std::RocStr>();

        unsafe {
            let pointer =
                crate::roc_alloc(size, align as u32) as *mut core::mem::ManuallyDrop<roc_std::RocStr>;

            *pointer = core::mem::ManuallyDrop::new(payload);

            Self { pointer }
        }
    }

    /// Unsafely assume the given StrConsList has a .tag() of Cons and convert it to Cons's payload.
    /// (always examine .tag() first to make sure this is the correct variant!)
    pub unsafe fn into_Cons(self) -> roc_std::RocStr {
        let payload = core::mem::ManuallyDrop::take(&mut *self.pointer);
        let align = core::mem::align_of::<roc_std::RocStr>() as u32;

        roc_dealloc(self.pointer as *mut core::ffi::c_void, align);

        payload
    }

    /// Unsafely assume the given StrConsList has a .tag() of Cons and return its payload.
    /// (always examine .tag() first to make sure this is the correct variant!)
    pub unsafe fn as_Cons(&self) -> &roc_std::RocStr {
        &*self.pointer
    }

    /// Construct a tag named Nil
    pub fn Nil() -> Self {
        Self {
            pointer: core::ptr::null_mut(),
        }
    }

    /// Other `into_` methods return a payload, but since the Nil tag
    /// has no payload, this does nothing and is only here for completeness.
    pub fn into_Nil(self) -> () {
        ()
    }

    /// Other `as` methods return a payload, but since the Nil tag
    /// has no payload, this does nothing and is only here for completeness.
    pub unsafe fn as_Nil(&self) -> () {
        ()
    }
}

impl Drop for StrConsList {
    fn drop(&mut self) {
        if !self.pointer.is_null() {
            let payload = unsafe { &*self.pointer };
            let align = core::mem::align_of::<roc_std::RocStr>() as u32;

            unsafe {
                roc_dealloc(self.pointer as *mut core::ffi::c_void, align);
            }

            drop(payload);
        }
    }
}

impl Clone for StrConsList {
    fn clone(&self) -> Self {
        match self.tag() {
            tag_StrConsList::Cons => unsafe { Self::Cons(core::mem::ManuallyDrop::into_inner((*self.pointer).clone())) },
            tag_StrConsList::Nil => Self::Nil(),
        }
    }
}

impl core::fmt::Debug for StrConsList {
    fn fmt(&self, f: &mut core::fmt::Formatter<'_>) -> core::fmt::Result {
        f.write_str("StrConsList::")?;

        match self.tag() {
            tag_StrConsList::Cons => unsafe { f.debug_tuple("Cons").field(&*self.pointer).finish() },
            tag_StrConsList::Nil => f.write_str("Nil"),
        }
    }
}

"#);
}
