//! What the glue to the graphics device decides.
//!
//! The device itself stands outside. It reports plain numbers (flag bits,
//! counts, sizes, result codes); the choices made from them stand here.

use vstd::prelude::*;

verus! {

/// The most memory types that a device reports.
pub const MAX_MEMORY_TYPES: usize = 32;

/// The result code of a surface that no longer fits its window.
pub const ERROR_OUT_OF_DATE: i32 = -1000001004;

/// The width that a surface reports while its size is the window's to
/// choose.
pub const UNDEFINED_EXTENT: u32 = 0xffff_ffff;

/// A size in pixels.
#[derive(PartialEq, Eq, Structural, Clone, Copy, Debug)]
pub struct Extent {
    pub width: u32,
    pub height: u32,
}

/// Memory type `index` is allowed by `memory_type_bits` and has every
/// property of `flag`.
pub open spec fn memory_type_suits(
    memory_types: Seq<u32>,
    memory_type_bits: u32,
    flag: u32,
    index: int,
) -> bool {
    &&& 0 <= index < memory_types.len()
    &&& index < 32
    &&& (1u32 << (index as u32)) & memory_type_bits != 0
    &&& memory_types[index] & flag == flag
}

/// The first memory type that the requirement allows and that has every
/// property asked for, given the property flags of each type in order.
pub fn find_memorytype_index(memory_types: &Vec<u32>, memory_type_bits: u32, flag: u32) -> (r:
    Option<u32>)
    requires
        memory_types.len() <= MAX_MEMORY_TYPES,
    ensures
        match r {
            Some(found) => {
                &&& memory_type_suits(memory_types@, memory_type_bits, flag, found as int)
                &&& forall|earlier: int|
                    0 <= earlier < found ==> !memory_type_suits(
                        memory_types@,
                        memory_type_bits,
                        flag,
                        earlier,
                    )
            },
            None => forall|index: int|
                0 <= index < memory_types.len() ==> !memory_type_suits(
                    memory_types@,
                    memory_type_bits,
                    flag,
                    index,
                ),
        },
{
    let mut index: u32 = 0;
    while (index as usize) < memory_types.len()
        invariant
            index <= memory_types.len() <= MAX_MEMORY_TYPES,
            forall|earlier: int|
                0 <= earlier < index ==> !memory_type_suits(
                    memory_types@,
                    memory_type_bits,
                    flag,
                    earlier,
                ),
        decreases memory_types.len() - index,
    {
        if (1u32 << index) & memory_type_bits != 0 && memory_types[index as usize] & flag == flag {
            return Some(index);
        }
        index += 1;
    }
    None
}

/// The number of images to ask of a swapchain: one more than the least,
/// but no more than the most, where the surface names a most (above zero).
pub fn swap_image_count(min_image_count: u32, max_image_count: u32) -> (r: u32)
    requires
        min_image_count < u32::MAX,
    ensures
        r == if max_image_count > 0 && min_image_count + 1 > max_image_count {
            max_image_count
        } else {
            (min_image_count + 1) as u32
        },
{
    let mut swap_img_count = min_image_count + 1;
    if max_image_count > 0 && swap_img_count > max_image_count {
        swap_img_count = max_image_count;
    }
    swap_img_count
}

/// The transform to present with: `identity` where the surface supports
/// all its bits, else the surface's current one.
pub fn choose_transform(supported: u32, current: u32, identity: u32) -> (r: u32)
    ensures
        r == if supported & identity == identity {
            identity
        } else {
            current
        },
{
    if supported & identity == identity {
        identity
    } else {
        current
    }
}

/// The present mode to use: the preferred one where the surface offers it,
/// else the fallback.
pub fn choose_present_mode(offered: &Vec<i32>, preferred: i32, fallback: i32) -> (r: i32)
    ensures
        r == if offered@.contains(preferred) {
            preferred
        } else {
            fallback
        },
{
    for index in 0..offered.len()
        invariant
            forall|earlier: int| 0 <= earlier < index ==> offered@[earlier] != preferred,
    {
        if offered[index] == preferred {
            return preferred;
        }
    }
    fallback
}

/// The resolutions to work at. The surface takes the window's size where
/// its own is left open, else its own. The second result is the preferred
/// render resolution where it applies (it is wanted and the window is
/// fullscreen); where it is `None`, the surface's resolution is scaled
/// outside.
pub fn get_res(
    window: Extent,
    current: Extent,
    fullscreen: bool,
    use_render_res: bool,
    render_res: Extent,
) -> (r: (Extent, Option<Extent>))
    ensures
        r.0 == if current.width == UNDEFINED_EXTENT {
            window
        } else {
            current
        },
        r.1 == if use_render_res && fullscreen {
            Some(render_res)
        } else {
            None::<Extent>
        },
{
    let surface_res = if current.width == UNDEFINED_EXTENT {
        window
    } else {
        current
    };
    let render_res = if use_render_res && fullscreen {
        Some(render_res)
    } else {
        None
    };
    (surface_res, render_res)
}

/// What came of asking for the next image: its index; `Ok(None)` where the
/// surface is out of date; any other failure as it came.
pub fn acquire_outcome(result: Result<u32, i32>) -> (r: Result<Option<u32>, i32>)
    ensures
        r == match result {
            Ok(index) => Ok::<Option<u32>, i32>(Some(index)),
            Err(code) => if code == ERROR_OUT_OF_DATE {
                Ok(None)
            } else {
                Err(code)
            },
        },
{
    match result {
        Ok(index) => Ok(Some(index)),
        Err(code) => if code == ERROR_OUT_OF_DATE {
            Ok(None)
        } else {
            Err(code)
        },
    }
}

/// What came of presenting: whether the swapchain is to be built anew,
/// which a suboptimal or out-of-date surface asks for; any other failure
/// as it came.
pub fn present_outcome(result: Result<bool, i32>) -> (r: Result<bool, i32>)
    ensures
        r == match result {
            Ok(suboptimal) => Ok::<bool, i32>(suboptimal),
            Err(code) => if code == ERROR_OUT_OF_DATE {
                Ok(true)
            } else {
                Err(code)
            },
        },
{
    match result {
        Ok(suboptimal) => Ok(suboptimal),
        Err(code) => if code == ERROR_OUT_OF_DATE {
            Ok(true)
        } else {
            Err(code)
        },
    }
}

} // verus!
