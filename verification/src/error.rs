//! What can go wrong with a request, and the message that tells the user.

use crate::text::{decimal, decimal_string};
use vstd::prelude::*;
use vstd::string::*;

verus! {

/// The step of an export at which writing failed.
#[derive(Debug, Clone, Copy, PartialEq, Eq)]
pub enum WriteStep {
    SheetName,
    Header,
    Row,
    Save,
}

/// What was asked for when there was no converted data to work on.
#[derive(Debug, Clone, Copy, PartialEq, Eq)]
pub enum Request {
    Export,
    Merge,
}

/// Why a request failed. Every failure ends the request.
#[derive(Debug, Clone, PartialEq, Eq)]
pub enum SheetError {
    /// The file cannot be opened or is not a spreadsheet.
    Open(String),
    /// The file holds no sheet.
    NoSheet,
    /// The sheet cannot be read.
    SheetRead(String),
    /// Nothing has been converted yet.
    NoData(Request),
    /// The output cannot be written.
    Write(WriteStep, String),
    /// The session is held by another request.
    Lock(String),
}

impl SheetError {
    /// The message that tells the user of this failure.
    pub open spec fn text(self) -> Seq<char> {
        match self {
            SheetError::Open(detail) => "无法打开文件: "@ + detail@,
            SheetError::NoSheet => "文件中没有工作表"@,
            SheetError::SheetRead(detail) => "无法读取工作表: "@ + detail@,
            SheetError::NoData(Request::Export) => "没有可导出的数据，请先选择并转换文件"@,
            SheetError::NoData(Request::Merge) => "没有可合并的数据，请先选择并转换文件"@,
            SheetError::Write(WriteStep::SheetName, detail) => "设置工作表名失败: "@ + detail@,
            SheetError::Write(WriteStep::Header, detail) => "写入表头失败: "@ + detail@,
            SheetError::Write(WriteStep::Row, detail) => "写入失败: "@ + detail@,
            SheetError::Write(WriteStep::Save, detail) => "保存文件失败: "@ + detail@,
            SheetError::Lock(detail) => "锁定状态失败: "@ + detail@,
        }
    }

    /// The message that tells the user of this failure.
    pub fn message(&self) -> (out: String)
        ensures
            out@ == self.text(),
    {
        match self {
            SheetError::Open(detail) => String::from_str("无法打开文件: ").concat(detail.as_str()),
            SheetError::NoSheet => String::from_str("文件中没有工作表"),
            SheetError::SheetRead(detail) => String::from_str("无法读取工作表: ").concat(
                detail.as_str(),
            ),
            SheetError::NoData(Request::Export) => String::from_str(
                "没有可导出的数据，请先选择并转换文件",
            ),
            SheetError::NoData(Request::Merge) => String::from_str(
                "没有可合并的数据，请先选择并转换文件",
            ),
            SheetError::Write(WriteStep::SheetName, detail) => String::from_str(
                "设置工作表名失败: ",
            ).concat(detail.as_str()),
            SheetError::Write(WriteStep::Header, detail) => String::from_str(
                "写入表头失败: ",
            ).concat(detail.as_str()),
            SheetError::Write(WriteStep::Row, detail) => String::from_str("写入失败: ").concat(
                detail.as_str(),
            ),
            SheetError::Write(WriteStep::Save, detail) => String::from_str(
                "保存文件失败: ",
            ).concat(detail.as_str()),
            SheetError::Lock(detail) => String::from_str("锁定状态失败: ").concat(
                detail.as_str(),
            ),
        }
    }
}

/// The message that reports an export of `count` orders.
pub open spec fn export_summary_text(count: nat) -> Seq<char> {
    "成功导出 "@ + decimal(count) + " 条数据"@
}

/// The message that reports an export of `count` orders.
pub fn export_summary(count: usize) -> (out: String)
    ensures
        out@ == export_summary_text(count as nat),
{
    let number = decimal_string(count as u128);
    String::from_str("成功导出 ").concat(number.as_str()).concat(" 条数据")
}

} // verus!
