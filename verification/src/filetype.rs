//! Tensor-encoding profiles of a model file.
//!
//! A container records one `FileType`: the element-encoding profile used for
//! its tensors.  The numeric codes are stable on disk; code 6 is reserved and
//! unused, and "mostly" means that 1-dimensional tensors remain 32-bit floats.

use vstd::prelude::*;

verus! {

/// How the tensors are stored in a model container.
#[derive(Debug, PartialEq, Eq, Clone, Copy, Structural)]
pub enum FileType {
    /// All tensors are stored as 32-bit floats.
    F32,
    /// All tensors are mostly stored as 16-bit floats, except for the 1D tensors (32-bit).
    MostlyF16,
    /// All tensors are mostly stored as `Q4_0`, except for the 1D tensors (32-bit).
    MostlyQ4_0,
    /// All tensors are mostly stored as `Q4_1`, except for the 1D tensors (32-bit).
    MostlyQ4_1,
    /// All tensors are mostly stored as `Q4_1`, except for the 1D tensors (32-bit)
    /// and the token-embedding and output tensors (16-bit floats).
    MostlyQ4_1SomeF16,
    /// All tensors are mostly stored as `Q4_2`, except for the 1D tensors (32-bit).
    MostlyQ4_2,
    /// All tensors are mostly stored as `Q8_0`, except for the 1D tensors (32-bit).
    MostlyQ8_0,
    /// All tensors are mostly stored as `Q5_0`, except for the 1D tensors (32-bit).
    MostlyQ5_0,
    /// All tensors are mostly stored as `Q5_1`, except for the 1D tensors (32-bit).
    MostlyQ5_1,
}

/// The stable numeric code of a tensor-encoding profile.
pub open spec fn file_type_code(t: FileType) -> int {
    match t {
        FileType::F32 => 0,
        FileType::MostlyF16 => 1,
        FileType::MostlyQ4_0 => 2,
        FileType::MostlyQ4_1 => 3,
        FileType::MostlyQ4_1SomeF16 => 4,
        FileType::MostlyQ4_2 => 5,
        FileType::MostlyQ8_0 => 7,
        FileType::MostlyQ5_0 => 8,
        FileType::MostlyQ5_1 => 9,
    }
}

/// The profile a numeric code stands for, if any.
pub open spec fn file_type_of_code(v: int) -> Option<FileType> {
    if v == 0 {
        Some(FileType::F32)
    } else if v == 1 {
        Some(FileType::MostlyF16)
    } else if v == 2 {
        Some(FileType::MostlyQ4_0)
    } else if v == 3 {
        Some(FileType::MostlyQ4_1)
    } else if v == 4 {
        Some(FileType::MostlyQ4_1SomeF16)
    } else if v == 5 {
        Some(FileType::MostlyQ4_2)
    } else if v == 7 {
        Some(FileType::MostlyQ8_0)
    } else if v == 8 {
        Some(FileType::MostlyQ5_0)
    } else if v == 9 {
        Some(FileType::MostlyQ5_1)
    } else {
        None
    }
}

/// The two code maps invert each other.
pub proof fn lemma_file_type_code_round_trip(t: FileType, v: int)
    ensures
        file_type_of_code(file_type_code(t)) == Some(t),
        file_type_of_code(v) is Some ==> file_type_code(file_type_of_code(v)->Some_0) == v,
{
}

impl From<FileType> for i32 {
    /// The stable numeric code of the profile.
    fn from(value: FileType) -> (r: i32)
        ensures
            r == file_type_code(value),
    {
        match value {
            FileType::F32 => 0,
            FileType::MostlyF16 => 1,
            FileType::MostlyQ4_0 => 2,
            FileType::MostlyQ4_1 => 3,
            FileType::MostlyQ4_1SomeF16 => 4,
            FileType::MostlyQ4_2 => 5,
            FileType::MostlyQ8_0 => 7,
            FileType::MostlyQ5_0 => 8,
            FileType::MostlyQ5_1 => 9,
        }
    }
}

impl vstd::std_specs::convert::FromSpecImpl<FileType> for i32 {
    open spec fn obeys_from_spec() -> bool {
        true
    }

    open spec fn from_spec(value: FileType) -> i32 {
        file_type_code(value) as i32
    }
}

impl TryFrom<i32> for FileType {
    type Error = ();

    /// The profile the code stands for; reserved and unknown codes are refused.
    fn try_from(value: i32) -> (r: Result<FileType, ()>)
        ensures
            r == match file_type_of_code(value as int) {
                Some(t) => Result::<FileType, ()>::Ok(t),
                None => Result::<FileType, ()>::Err(()),
            },
    {
        match value {
            0 => Ok(FileType::F32),
            1 => Ok(FileType::MostlyF16),
            2 => Ok(FileType::MostlyQ4_0),
            3 => Ok(FileType::MostlyQ4_1),
            4 => Ok(FileType::MostlyQ4_1SomeF16),
            5 => Ok(FileType::MostlyQ4_2),
            7 => Ok(FileType::MostlyQ8_0),
            8 => Ok(FileType::MostlyQ5_0),
            9 => Ok(FileType::MostlyQ5_1),
            _ => Err(()),
        }
    }
}

impl vstd::std_specs::convert::TryFromSpecImpl<i32> for FileType {
    open spec fn obeys_try_from_spec() -> bool {
        true
    }

    open spec fn try_from_spec(value: i32) -> Result<FileType, ()> {
        match file_type_of_code(value as int) {
            Some(t) => Ok(t),
            None => Err(()),
        }
    }
}

impl Default for FileType {
    /// The default profile is mostly 16-bit floats.
    fn default() -> (r: FileType)
        ensures
            r == FileType::MostlyF16,
    {
        FileType::MostlyF16
    }
}

impl FileType {
    /// The short name of the profile, as printed in diagnostics.
    pub fn label(&self) -> (r: &'static str)
        ensures
            r@ == match self {
                FileType::F32 => "f32"@,
                FileType::MostlyF16 => "f16"@,
                FileType::MostlyQ4_0 => "q4_0"@,
                FileType::MostlyQ4_1 => "q4_1"@,
                FileType::MostlyQ4_1SomeF16 => "q4_1_with_f16"@,
                FileType::MostlyQ4_2 => "q4_2"@,
                FileType::MostlyQ8_0 => "q8_0"@,
                FileType::MostlyQ5_0 => "q5_0"@,
                FileType::MostlyQ5_1 => "q5_1"@,
            },
    {
        match self {
            FileType::F32 => "f32",
            FileType::MostlyF16 => "f16",
            FileType::MostlyQ4_0 => "q4_0",
            FileType::MostlyQ4_1 => "q4_1",
            FileType::MostlyQ4_1SomeF16 => "q4_1_with_f16",
            FileType::MostlyQ4_2 => "q4_2",
            FileType::MostlyQ8_0 => "q8_0",
            FileType::MostlyQ5_0 => "q5_0",
            FileType::MostlyQ5_1 => "q5_1",
        }
    }
}

} // verus!
