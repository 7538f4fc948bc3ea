use vstd::prelude::*;

verus! {

/// One column of a physical table or view, as the data store's schema
/// introspection reports it.
#[derive(Debug, Clone, PartialEq, Eq)]
pub struct ColumnDataType {
    pub column_name: String,
    pub data_type: String,
}

impl ColumnDataType {
    /// An exact copy, field for field.
    pub fn duplicate(&self) -> (r: Self)
        ensures
            r == *self,
    {
        ColumnDataType {
            column_name: self.column_name.clone(),
            data_type: self.data_type.clone(),
        }
    }
}

} // verus!
