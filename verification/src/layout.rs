use vstd::prelude::*;

verus! {

broadcast use vstd::layout::layout_of_primitives;

/// The size in bytes of the primitive integer type named `ty`, for the
/// names `i8` to `i64` and `u8` to `u128`.
pub open spec fn size_by_name(ty: Seq<char>) -> Option<nat> {
    if ty == seq!['i', '8'] || ty == seq!['u', '8'] {
        Some(1)
    } else if ty == seq!['i', '1', '6'] || ty == seq!['u', '1', '6'] {
        Some(2)
    } else if ty == seq!['i', '3', '2'] || ty == seq!['u', '3', '2'] {
        Some(4)
    } else if ty == seq!['i', '6', '4'] || ty == seq!['u', '6', '4'] {
        Some(8)
    } else if ty == seq!['u', '1', '2', '8'] {
        Some(16)
    } else {
        None
    }
}

/// The size in bytes of the primitive integer type named `ty`.
pub fn calculate_size_of(ty: String) -> (r: usize)
    requires
        size_by_name(ty@) is Some,
    ensures
        r == size_by_name(ty@)->0,
{
    proof {
        reveal_strlit("i8");
        reveal_strlit("i16");
        reveal_strlit("i32");
        reveal_strlit("i64");
        reveal_strlit("u8");
        reveal_strlit("u16");
        reveal_strlit("u32");
        reveal_strlit("u64");
        reveal_strlit("u128");
        assert(vstd::layout::size_of::<u8>() == 1);
        assert("i8"@ =~= seq!['i', '8']);
        assert("i16"@ =~= seq!['i', '1', '6']);
        assert("i32"@ =~= seq!['i', '3', '2']);
        assert("i64"@ =~= seq!['i', '6', '4']);
        assert("u8"@ =~= seq!['u', '8']);
        assert("u16"@ =~= seq!['u', '1', '6']);
        assert("u32"@ =~= seq!['u', '3', '2']);
        assert("u64"@ =~= seq!['u', '6', '4']);
        assert("u128"@ =~= seq!['u', '1', '2', '8']);
    }
    if crate::common::text_is(&ty, "i8") {
        std::mem::size_of::<i8>()
    } else if crate::common::text_is(&ty, "i16") {
        std::mem::size_of::<i16>()
    } else if crate::common::text_is(&ty, "i32") {
        std::mem::size_of::<i32>()
    } else if crate::common::text_is(&ty, "i64") {
        std::mem::size_of::<i64>()
    } else if crate::common::text_is(&ty, "u8") {
        std::mem::size_of::<u8>()
    } else if crate::common::text_is(&ty, "u16") {
        std::mem::size_of::<u16>()
    } else if crate::common::text_is(&ty, "u32") {
        std::mem::size_of::<u32>()
    } else if crate::common::text_is(&ty, "u64") {
        std::mem::size_of::<u64>()
    } else {
        std::mem::size_of::<u128>()
    }
}


/// The size in bytes of an array of `len` elements of the primitive
/// integer type named `elem`, where `len` is the array length written as a
/// decimal literal.
pub fn calculate_size_of_array(elem: String, len: &str) -> (r: usize)
    requires
        size_by_name(elem@) is Some,
        crate::text::parse_usize(len@) is Some,
        size_by_name(elem@)->0 * crate::text::parse_usize(len@)->0 <= usize::MAX,
    ensures
        r == size_by_name(elem@)->0 * crate::text::parse_usize(len@)->0,
{
    let chars = crate::text::to_chars(len);
    let n = match crate::text::parse_usize_exec(chars.as_slice()) {
        Some(n) => n,
        None => 0,
    };
    calculate_size_of(elem) * n
}

} // verus!
