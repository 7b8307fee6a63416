//! Keyboard layouts: three rows of ten keys each.
use vstd::prelude::*;

verus! {

/// Number of rows a layout must have.
pub const ROW_COUNT: usize = 3;

/// Number of keys each row of a layout must have.
pub const ROW_LENGTH: usize = 10;

/// The rows of a layout, each as the characters it holds.
pub open spec fn rows_of(keys: Seq<String>) -> Seq<Seq<char>> {
    keys.map_values(|r: String| r@)
}

/// A layout is well formed when it has exactly three rows of exactly ten keys.
pub open spec fn well_formed_rows(rows: Seq<Seq<char>>) -> bool {
    &&& rows.len() == ROW_COUNT
    &&& forall|i: int| 0 <= i < rows.len() ==> #[trigger] rows[i].len() == ROW_LENGTH
}

/// Why a layout definition was rejected.
#[derive(Debug, Clone, Copy, PartialEq, Eq, Structural)]
pub enum LayoutError {
    /// A new layout must carry a name.
    MissingName,
    /// The layout does not have exactly three rows.
    WrongRowCount,
    /// Some row does not have exactly ten keys.
    WrongRowLength,
}

/// Checks the shape of a layout's rows.
pub fn check_keys(keys: &Vec<String>) -> (r: Result<(), LayoutError>)
    ensures
        r == check_keys_result(keys@),
{
    if keys.len() != ROW_COUNT {
        return Err(LayoutError::WrongRowCount);
    }
    let mut i: usize = 0;
    while i < keys.len()
        invariant
            0 <= i <= keys@.len(),
            keys@.len() == ROW_COUNT,
            forall|j: int| 0 <= j < i ==> #[trigger] keys@[j]@.len() == ROW_LENGTH,
        decreases keys@.len() - i,
    {
        if keys[i].as_str().unicode_len() != ROW_LENGTH {
            assert(rows_of(keys@)[i as int].len() != ROW_LENGTH);
            return Err(LayoutError::WrongRowLength);
        }
        i += 1;
    }
    assert(well_formed_rows(rows_of(keys@))) by {
        assert forall|j: int| 0 <= j < rows_of(keys@).len() implies #[trigger] rows_of(
            keys@,
        )[j].len() == ROW_LENGTH by {
            assert(keys@[j]@.len() == ROW_LENGTH);
        }
    }
    Ok(())
}

/// Checks a new layout definition: it must be named and well formed.
pub fn validate_layout(name: &Option<String>, keys: &Vec<String>) -> (r: Result<(), LayoutError>)
    ensures
        name is None ==> r == Err::<(), LayoutError>(LayoutError::MissingName),
        name is Some ==> r == check_keys_result(keys@),
{
    if name.is_none() {
        return Err(LayoutError::MissingName);
    }
    check_keys(keys)
}

/// A named keyboard layout: its rows of keys, top to bottom.
pub struct LayoutModel {
    pub name: Option<String>,
    pub keys: Vec<String>,
}

impl LayoutModel {
    /// Checks the layout as a new definition: named and well formed.
    pub fn validate_new(&self) -> (r: Result<(), LayoutError>)
        ensures
            self.name is None ==> r == Err::<(), LayoutError>(LayoutError::MissingName),
            self.name is Some ==> r == check_keys_result(self.keys@),
    {
        validate_layout(&self.name, &self.keys)
    }

    /// Checks the layout as a replacement for a stored one: well formed.
    pub fn validate_update(&self) -> (r: Result<(), LayoutError>)
        ensures
            r == check_keys_result(self.keys@),
    {
        check_keys(&self.keys)
    }
}

/// What checking the shape of the given rows yields.
pub open spec fn check_keys_result(keys: Seq<String>) -> Result<(), LayoutError> {
    if keys.len() != ROW_COUNT {
        Err(LayoutError::WrongRowCount)
    } else if !well_formed_rows(rows_of(keys)) {
        Err(LayoutError::WrongRowLength)
    } else {
        Ok(())
    }
}

} // verus!
