//! What one user's session remembers between requests: the rows of the last
//! conversion, which a later merge or export works on.

use crate::error::{Request, SheetError};
use crate::group::ConversionResult;
use crate::merge::{merge_duplicates, merged};
use crate::row::{copy_rows, row_views, ConvertedRow, RowModel};
use vstd::prelude::*;

verus! {

/// The rows of the last conversion and the path of its source file, as far
/// as either is known.
#[derive(Debug, Clone, PartialEq, Eq)]
pub struct Session {
    pub converted: Option<Vec<ConvertedRow>>,
    pub source_path: Option<String>,
}

impl Session {
    /// The models of the remembered rows.
    pub open spec fn rows(self) -> Option<Seq<RowModel>> {
        match self.converted {
            Some(rows) => Some(row_views(rows@)),
            None => None,
        }
    }

    /// The remembered path.
    pub open spec fn source(self) -> Option<Seq<char>> {
        match self.source_path {
            Some(path) => Some(path@),
            None => None,
        }
    }

    /// A session that remembers nothing.
    pub fn new() -> (session: Session)
        ensures
            session.rows().is_none(),
            session.source().is_none(),
    {
        Session { converted: None, source_path: None }
    }

    /// Remembers the rows of a conversion in place of any earlier ones.
    pub fn keep_rows(&mut self, result: &ConversionResult)
        ensures
            final(self).rows() == Some(row_views(result.rows@)),
            final(self).source() == old(self).source(),
    {
        self.converted = Some(copy_rows(result.rows.as_slice()));
    }

    /// Remembers the path of the source file.
    pub fn keep_source(&mut self, path: String)
        ensures
            final(self).source() == Some(path@),
            final(self).rows() == old(self).rows(),
    {
        self.source_path = Some(path);
    }

    /// Merges the duplicates among the remembered rows and remembers the
    /// merged rows in their place. The result reports no duplicates. Without
    /// remembered rows the session stays as it is and the request fails.
    pub fn merge(&mut self) -> (res: Result<ConversionResult, SheetError>)
        ensures
            final(self).source() == old(self).source(),
            match old(self).rows() {
                Some(rows) => {
                    &&& final(self).rows() == Some(merged(rows))
                    &&& res matches Ok(result)
                    &&& row_views(result.rows@) == merged(rows)
                    &&& result.total_rows == merged(rows).len()
                    &&& !result.has_duplicates
                    &&& result.duplicate_count == 0
                },
                None => {
                    &&& final(self).rows().is_none()
                    &&& res matches Err(SheetError::NoData(Request::Merge))
                },
            },
    {
        match &self.converted {
            Some(rows) => {
                let merged_rows = merge_duplicates(rows.as_slice());
                let total_rows = merged_rows.len();
                let kept = copy_rows(merged_rows.as_slice());
                self.converted = Some(kept);
                Ok(
                    ConversionResult {
                        rows: merged_rows,
                        total_rows,
                        has_duplicates: false,
                        duplicate_count: 0,
                    },
                )
            },
            None => Err(SheetError::NoData(Request::Merge)),
        }
    }

    /// The remembered rows, for an export. Without them the request fails.
    pub fn rows_to_export(&self) -> (res: Result<&Vec<ConvertedRow>, SheetError>)
        ensures
            match self.converted {
                Some(rows) => res matches Ok(found) && *found == rows,
                None => res matches Err(SheetError::NoData(Request::Export)),
            },
    {
        match &self.converted {
            Some(rows) => Ok(rows),
            None => Err(SheetError::NoData(Request::Export)),
        }
    }
}

} // verus!
