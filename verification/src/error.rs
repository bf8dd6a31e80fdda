//! Errors of the library, each with the message shown to the user.

use vstd::prelude::*;

use crate::text::push_str;

verus! {

/// What went wrong.
#[derive(Debug, Clone, PartialEq, Eq)]
pub enum AppError {
    /// The bytes do not begin with the PNG signature.
    NotPng,
    /// A chunk runs past the end of the file.
    ChunkOutOfBounds,
    /// The PNG has no `IEND` chunk to insert before.
    MissingIend,
    /// The `chara` value is not valid base64 (decoder message).
    CharaBase64(String),
    /// The decoded `chara` value is not UTF-8.
    CharaNotUtf8,
    /// The PNG carries no `chara` text.
    NoChara,
    /// The card JSON does not parse or has the wrong shape (reason).
    CardJson(String),
    /// A card file type that cannot be imported (the extension).
    UnsupportedImport(String),
    /// A card file type that cannot be exported (the extension).
    UnsupportedExport(String),
    /// PNG export needs a PNG avatar.
    NoPngAvatar,
    /// The avatar is not valid base64 (decoder message).
    AvatarBase64(String),
    /// Anything else, with its message.
    Other(String),
}

/// An error as a value (messages as character sequences).
pub enum ErrorV {
    NotPng,
    ChunkOutOfBounds,
    MissingIend,
    CharaBase64(Seq<char>),
    CharaNotUtf8,
    NoChara,
    CardJson(Seq<char>),
    UnsupportedImport(Seq<char>),
    UnsupportedExport(Seq<char>),
    NoPngAvatar,
    AvatarBase64(Seq<char>),
    Other(Seq<char>),
}

impl View for AppError {
    type V = ErrorV;

    open spec fn view(&self) -> ErrorV {
        match self {
            AppError::NotPng => ErrorV::NotPng,
            AppError::ChunkOutOfBounds => ErrorV::ChunkOutOfBounds,
            AppError::MissingIend => ErrorV::MissingIend,
            AppError::CharaBase64(m) => ErrorV::CharaBase64(m@),
            AppError::CharaNotUtf8 => ErrorV::CharaNotUtf8,
            AppError::NoChara => ErrorV::NoChara,
            AppError::CardJson(m) => ErrorV::CardJson(m@),
            AppError::UnsupportedImport(x) => ErrorV::UnsupportedImport(x@),
            AppError::UnsupportedExport(x) => ErrorV::UnsupportedExport(x@),
            AppError::NoPngAvatar => ErrorV::NoPngAvatar,
            AppError::AvatarBase64(m) => ErrorV::AvatarBase64(m@),
            AppError::Other(m) => ErrorV::Other(m@),
        }
    }
}

/// The text shown for an error.
pub open spec fn error_text(e: AppError) -> Seq<char> {
    match e {
        AppError::NotPng => "不是有效的 PNG 文件（签名不匹配）"@,
        AppError::ChunkOutOfBounds => "PNG chunk 数据越界"@,
        AppError::MissingIend => "PNG 缺少 IEND chunk"@,
        AppError::CharaBase64(m) => "chara base64 解码失败: "@ + m@,
        AppError::CharaNotUtf8 => "chara 内容不是有效 UTF-8"@,
        AppError::NoChara => "该 PNG 中没有 chara 数据，不是有效的角色卡"@,
        AppError::CardJson(m) => "卡片 JSON 解析失败: "@ + m@,
        AppError::UnsupportedImport(x) => "不支持的文件格式: "@ + x@ + "（仅支持 .png / .json）"@,
        AppError::UnsupportedExport(x) => "不支持的导出格式: "@ + x@ + "（仅支持 .png / .json）"@,
        AppError::NoPngAvatar => "该角色没有 PNG 头像，无法导出 PNG 卡；请导出为 JSON 格式"@,
        AppError::AvatarBase64(m) => "头像 base64 解码失败: "@ + m@,
        AppError::Other(m) => m@,
    }
}

impl AppError {
    /// An error with a free-form message.
    pub fn other(msg: &str) -> (e: AppError)
        ensures
            e == AppError::Other(e->Other_0) && e->Other_0@ == msg@,
    {
        AppError::Other(msg.to_owned())
    }

    /// The message shown to the user.
    pub fn message(&self) -> (r: String)
        ensures
            r@ == error_text(*self),
    {
        let mut r = String::new();
        match self {
            AppError::NotPng => push_str(&mut r, "不是有效的 PNG 文件（签名不匹配）"),
            AppError::ChunkOutOfBounds => push_str(&mut r, "PNG chunk 数据越界"),
            AppError::MissingIend => push_str(&mut r, "PNG 缺少 IEND chunk"),
            AppError::CharaBase64(m) => {
                push_str(&mut r, "chara base64 解码失败: ");
                push_str(&mut r, m.as_str());
            },
            AppError::CharaNotUtf8 => push_str(&mut r, "chara 内容不是有效 UTF-8"),
            AppError::NoChara => push_str(&mut r, "该 PNG 中没有 chara 数据，不是有效的角色卡"),
            AppError::CardJson(m) => {
                push_str(&mut r, "卡片 JSON 解析失败: ");
                push_str(&mut r, m.as_str());
            },
            AppError::UnsupportedImport(x) => {
                push_str(&mut r, "不支持的文件格式: ");
                push_str(&mut r, x.as_str());
                push_str(&mut r, "（仅支持 .png / .json）");
            },
            AppError::UnsupportedExport(x) => {
                push_str(&mut r, "不支持的导出格式: ");
                push_str(&mut r, x.as_str());
                push_str(&mut r, "（仅支持 .png / .json）");
            },
            AppError::NoPngAvatar => push_str(
                &mut r,
                "该角色没有 PNG 头像，无法导出 PNG 卡；请导出为 JSON 格式",
            ),
            AppError::AvatarBase64(m) => {
                push_str(&mut r, "头像 base64 解码失败: ");
                push_str(&mut r, m.as_str());
            },
            AppError::Other(m) => push_str(&mut r, m.as_str()),
        }
        r
    }
}

} // verus!
