//! Maps file extensions to the default macOS application names, and groups
//! result paths by the application that opens them.
use vstd::prelude::*;

use crate::engine::or_empty;
use crate::paths::{file_name, file_name_str, last_dot, last_dot_exec, lemma_last_dot_bound};
use crate::sorting::{OrderKey, is_stable_order, lemma_text_total, lemma_text_trans, stable_order, text_le, text_le_exec};
use crate::strings::{clone_strings, distinct, distinct_strings, lemma_distinct_props, lemma_views_push, views};
use crate::text::{chars_of, lowercase, owned, slice_chars, str_eq, string_of, to_lowercase};
verus! {

/// The application that opens files with the (lower-case) extension `ext`,
/// for the extensions this program knows.
pub open spec fn known_app(ext: Seq<char>) -> Option<Seq<char>> {
    if ext == "ai"@ {
        Some("Adobe Illustrator"@)
    } else if ext == "ait"@ {
        Some("Adobe Illustrator"@)
    } else if ext == "psd"@ {
        Some("Adobe Photoshop"@)
    } else if ext == "psb"@ {
        Some("Adobe Photoshop"@)
    } else if ext == "psp"@ {
        Some("Adobe Photoshop"@)
    } else if ext == "indd"@ {
        Some("Adobe InDesign"@)
    } else if ext == "indt"@ {
        Some("Adobe InDesign"@)
    } else if ext == "idml"@ {
        Some("Adobe InDesign"@)
    } else if ext == "aep"@ {
        Some("Adobe After Effects"@)
    } else if ext == "aet"@ {
        Some("Adobe After Effects"@)
    } else if ext == "aepx"@ {
        Some("Adobe After Effects"@)
    } else if ext == "prproj"@ {
        Some("Adobe Premiere Pro"@)
    } else if ext == "ppj"@ {
        Some("Adobe Premiere Pro"@)
    } else if ext == "prel"@ {
        Some("Adobe Premiere Elements"@)
    } else if ext == "lrcat"@ {
        Some("Adobe Lightroom"@)
    } else if ext == "lrtemplate"@ {
        Some("Adobe Lightroom"@)
    } else if ext == "xmp"@ {
        Some("Adobe Lightroom"@)
    } else if ext == "dng"@ {
        Some("Adobe Lightroom"@)
    } else if ext == "fla"@ {
        Some("Adobe Animate"@)
    } else if ext == "xfl"@ {
        Some("Adobe Animate"@)
    } else if ext == "swf"@ {
        Some("Adobe Flash Player"@)
    } else if ext == "ase"@ {
        Some("Adobe Swatch Exchange"@)
    } else if ext == "aco"@ {
        Some("Adobe Photoshop"@)
    } else if ext == "abr"@ {
        Some("Adobe Photoshop"@)
    } else if ext == "pat"@ {
        Some("Adobe Photoshop"@)
    } else if ext == "csh"@ {
        Some("Adobe Photoshop"@)
    } else if ext == "grd"@ {
        Some("Adobe Photoshop"@)
    } else if ext == "sketch"@ {
        Some("Sketch"@)
    } else if ext == "fig"@ {
        Some("Figma"@)
    } else if ext == "jam"@ {
        Some("Figma"@)
    } else if ext == "xd"@ {
        Some("Adobe XD"@)
    } else if ext == "afdesign"@ {
        Some("Affinity Designer"@)
    } else if ext == "afphoto"@ {
        Some("Affinity Photo"@)
    } else if ext == "afpub"@ {
        Some("Affinity Publisher"@)
    } else if ext == "cdr"@ {
        Some("CorelDRAW"@)
    } else if ext == "cdt"@ {
        Some("CorelDRAW"@)
    } else if ext == "cmx"@ {
        Some("CorelDRAW"@)
    } else if ext == "pxm"@ {
        Some("Pixelmator Pro"@)
    } else if ext == "acorn"@ {
        Some("Acorn"@)
    } else if ext == "blend"@ {
        Some("Blender"@)
    } else if ext == "blend1"@ {
        Some("Blender"@)
    } else if ext == "max"@ {
        Some("3ds Max"@)
    } else if ext == "3ds"@ {
        Some("3ds Max"@)
    } else if ext == "ma"@ {
        Some("Maya"@)
    } else if ext == "mb"@ {
        Some("Maya"@)
    } else if ext == "c4d"@ {
        Some("Cinema 4D"@)
    } else if ext == "skp"@ {
        Some("SketchUp"@)
    } else if ext == "obj"@ {
        Some("预览"@)
    } else if ext == "fbx"@ {
        Some("预览"@)
    } else if ext == "stl"@ {
        Some("预览"@)
    } else if ext == "glb"@ {
        Some("预览"@)
    } else if ext == "gltf"@ {
        Some("预览"@)
    } else if ext == "usdz"@ {
        Some("预览"@)
    } else if ext == "usd"@ {
        Some("预览"@)
    } else if ext == "usda"@ {
        Some("预览"@)
    } else if ext == "usdc"@ {
        Some("预览"@)
    } else if ext == "ttf"@ {
        Some("字体册"@)
    } else if ext == "otf"@ {
        Some("字体册"@)
    } else if ext == "woff"@ {
        Some("字体册"@)
    } else if ext == "woff2"@ {
        Some("字体册"@)
    } else if ext == "jpg"@ {
        Some("预览"@)
    } else if ext == "jpeg"@ {
        Some("预览"@)
    } else if ext == "jpe"@ {
        Some("预览"@)
    } else if ext == "jfif"@ {
        Some("预览"@)
    } else if ext == "png"@ {
        Some("预览"@)
    } else if ext == "gif"@ {
        Some("预览"@)
    } else if ext == "webp"@ {
        Some("预览"@)
    } else if ext == "bmp"@ {
        Some("预览"@)
    } else if ext == "heic"@ {
        Some("预览"@)
    } else if ext == "heif"@ {
        Some("预览"@)
    } else if ext == "heics"@ {
        Some("预览"@)
    } else if ext == "tif"@ {
        Some("预览"@)
    } else if ext == "tiff"@ {
        Some("预览"@)
    } else if ext == "ico"@ {
        Some("预览"@)
    } else if ext == "icns"@ {
        Some("预览"@)
    } else if ext == "eps"@ {
        Some("预览"@)
    } else if ext == "svg"@ {
        Some("预览"@)
    } else if ext == "svgz"@ {
        Some("预览"@)
    } else if ext == "raw"@ {
        Some("预览"@)
    } else if ext == "cr2"@ {
        Some("预览"@)
    } else if ext == "cr3"@ {
        Some("预览"@)
    } else if ext == "crw"@ {
        Some("预览"@)
    } else if ext == "nef"@ {
        Some("预览"@)
    } else if ext == "nrw"@ {
        Some("预览"@)
    } else if ext == "arw"@ {
        Some("预览"@)
    } else if ext == "srf"@ {
        Some("预览"@)
    } else if ext == "sr2"@ {
        Some("预览"@)
    } else if ext == "orf"@ {
        Some("预览"@)
    } else if ext == "rw2"@ {
        Some("预览"@)
    } else if ext == "pef"@ {
        Some("预览"@)
    } else if ext == "raf"@ {
        Some("预览"@)
    } else if ext == "dcr"@ {
        Some("预览"@)
    } else if ext == "kdc"@ {
        Some("预览"@)
    } else if ext == "mrw"@ {
        Some("预览"@)
    } else if ext == "3fr"@ {
        Some("预览"@)
    } else if ext == "fff"@ {
        Some("预览"@)
    } else if ext == "exr"@ {
        Some("预览"@)
    } else if ext == "hdr"@ {
        Some("预览"@)
    } else if ext == "avif"@ {
        Some("预览"@)
    } else if ext == "mp4"@ {
        Some("QuickTime Player"@)
    } else if ext == "m4v"@ {
        Some("QuickTime Player"@)
    } else if ext == "mov"@ {
        Some("QuickTime Player"@)
    } else if ext == "avi"@ {
        Some("QuickTime Player"@)
    } else if ext == "mkv"@ {
        Some("QuickTime Player"@)
    } else if ext == "webm"@ {
        Some("QuickTime Player"@)
    } else if ext == "wmv"@ {
        Some("QuickTime Player"@)
    } else if ext == "flv"@ {
        Some("QuickTime Player"@)
    } else if ext == "mp3"@ {
        Some("音乐"@)
    } else if ext == "m4a"@ {
        Some("音乐"@)
    } else if ext == "m4p"@ {
        Some("音乐"@)
    } else if ext == "wav"@ {
        Some("音乐"@)
    } else if ext == "aiff"@ {
        Some("音乐"@)
    } else if ext == "aif"@ {
        Some("音乐"@)
    } else if ext == "flac"@ {
        Some("音乐"@)
    } else if ext == "aac"@ {
        Some("音乐"@)
    } else if ext == "ogg"@ {
        Some("音乐"@)
    } else if ext == "wma"@ {
        Some("音乐"@)
    } else if ext == "m4r"@ {
        Some("音乐"@)
    } else if ext == "caf"@ {
        Some("音乐"@)
    } else if ext == "pdf"@ {
        Some("预览"@)
    } else if ext == "doc"@ {
        Some("Microsoft Word"@)
    } else if ext == "docx"@ {
        Some("Microsoft Word"@)
    } else if ext == "dot"@ {
        Some("Microsoft Word"@)
    } else if ext == "dotx"@ {
        Some("Microsoft Word"@)
    } else if ext == "xls"@ {
        Some("Microsoft Excel"@)
    } else if ext == "xlsx"@ {
        Some("Microsoft Excel"@)
    } else if ext == "xlt"@ {
        Some("Microsoft Excel"@)
    } else if ext == "xltx"@ {
        Some("Microsoft Excel"@)
    } else if ext == "csv"@ {
        Some("Microsoft Excel"@)
    } else if ext == "ppt"@ {
        Some("Microsoft PowerPoint"@)
    } else if ext == "pptx"@ {
        Some("Microsoft PowerPoint"@)
    } else if ext == "pot"@ {
        Some("Microsoft PowerPoint"@)
    } else if ext == "potx"@ {
        Some("Microsoft PowerPoint"@)
    } else if ext == "txt"@ {
        Some("文本编辑"@)
    } else if ext == "md"@ {
        Some("文本编辑"@)
    } else if ext == "rtf"@ {
        Some("文本编辑"@)
    } else if ext == "rtfd"@ {
        Some("文本编辑"@)
    } else if ext == "pages"@ {
        Some("Pages"@)
    } else if ext == "numbers"@ {
        Some("Numbers"@)
    } else if ext == "key"@ {
        Some("Keynote"@)
    } else if ext == "kth"@ {
        Some("Keynote"@)
    } else if ext == "odt"@ {
        Some("LibreOffice"@)
    } else if ext == "ods"@ {
        Some("LibreOffice"@)
    } else if ext == "odp"@ {
        Some("LibreOffice"@)
    } else if ext == "rs"@ {
        Some("Xcode"@)
    } else if ext == "swift"@ {
        Some("Xcode"@)
    } else if ext == "c"@ {
        Some("Xcode"@)
    } else if ext == "cpp"@ {
        Some("Xcode"@)
    } else if ext == "h"@ {
        Some("Xcode"@)
    } else if ext == "hpp"@ {
        Some("Xcode"@)
    } else if ext == "m"@ {
        Some("Xcode"@)
    } else if ext == "mm"@ {
        Some("Xcode"@)
    } else if ext == "playground"@ {
        Some("Xcode"@)
    } else if ext == "xcodeproj"@ {
        Some("Xcode"@)
    } else if ext == "xcworkspace"@ {
        Some("Xcode"@)
    } else if ext == "storyboard"@ {
        Some("Xcode"@)
    } else if ext == "xib"@ {
        Some("Xcode"@)
    } else if ext == "ts"@ {
        Some("Visual Studio Code"@)
    } else if ext == "tsx"@ {
        Some("Visual Studio Code"@)
    } else if ext == "js"@ {
        Some("Visual Studio Code"@)
    } else if ext == "jsx"@ {
        Some("Visual Studio Code"@)
    } else if ext == "json"@ {
        Some("Visual Studio Code"@)
    } else if ext == "toml"@ {
        Some("Visual Studio Code"@)
    } else if ext == "yaml"@ {
        Some("Visual Studio Code"@)
    } else if ext == "yml"@ {
        Some("Visual Studio Code"@)
    } else if ext == "py"@ {
        Some("Visual Studio Code"@)
    } else if ext == "go"@ {
        Some("Visual Studio Code"@)
    } else if ext == "java"@ {
        Some("Visual Studio Code"@)
    } else if ext == "html"@ {
        Some("Safari 浏览器"@)
    } else if ext == "htm"@ {
        Some("Safari 浏览器"@)
    } else if ext == "css"@ {
        Some("Safari 浏览器"@)
    } else if ext == "scss"@ {
        Some("Visual Studio Code"@)
    } else if ext == "less"@ {
        Some("Visual Studio Code"@)
    } else if ext == "sass"@ {
        Some("Visual Studio Code"@)
    } else if ext == "rb"@ {
        Some("Visual Studio Code"@)
    } else if ext == "php"@ {
        Some("Visual Studio Code"@)
    } else if ext == "sql"@ {
        Some("Visual Studio Code"@)
    } else if ext == "sh"@ {
        Some("终端"@)
    } else if ext == "bash"@ {
        Some("终端"@)
    } else if ext == "zsh"@ {
        Some("终端"@)
    } else if ext == "fish"@ {
        Some("终端"@)
    } else if ext == "xml"@ {
        Some("Safari 浏览器"@)
    } else if ext == "plist"@ {
        Some("Xcode"@)
    } else if ext == "zip"@ {
        Some("归档实用工具"@)
    } else if ext == "rar"@ {
        Some("归档实用工具"@)
    } else if ext == "7z"@ {
        Some("归档实用工具"@)
    } else if ext == "tar"@ {
        Some("归档实用工具"@)
    } else if ext == "gz"@ {
        Some("归档实用工具"@)
    } else if ext == "bz2"@ {
        Some("归档实用工具"@)
    } else if ext == "xz"@ {
        Some("归档实用工具"@)
    } else if ext == "tgz"@ {
        Some("归档实用工具"@)
    } else if ext == "tbz2"@ {
        Some("归档实用工具"@)
    } else if ext == "dmg"@ {
        Some("磁盘工具"@)
    } else if ext == "iso"@ {
        Some("磁盘工具"@)
    } else if ext == "sparseimage"@ {
        Some("磁盘工具"@)
    } else if ext == "sparsebundle"@ {
        Some("磁盘工具"@)
    } else {
        None
    }
}

/// Looks up the application for a lower-case extension.
pub fn known_app_for(ext: &str) -> (r: Option<&'static str>)
    ensures
        match r {
            Some(a) => known_app(ext@) == Some(a@),
            None => known_app(ext@) is None,
        },
{
    if str_eq(ext, "ai") {
        Some("Adobe Illustrator")
    } else if str_eq(ext, "ait") {
        Some("Adobe Illustrator")
    } else if str_eq(ext, "psd") {
        Some("Adobe Photoshop")
    } else if str_eq(ext, "psb") {
        Some("Adobe Photoshop")
    } else if str_eq(ext, "psp") {
        Some("Adobe Photoshop")
    } else if str_eq(ext, "indd") {
        Some("Adobe InDesign")
    } else if str_eq(ext, "indt") {
        Some("Adobe InDesign")
    } else if str_eq(ext, "idml") {
        Some("Adobe InDesign")
    } else if str_eq(ext, "aep") {
        Some("Adobe After Effects")
    } else if str_eq(ext, "aet") {
        Some("Adobe After Effects")
    } else if str_eq(ext, "aepx") {
        Some("Adobe After Effects")
    } else if str_eq(ext, "prproj") {
        Some("Adobe Premiere Pro")
    } else if str_eq(ext, "ppj") {
        Some("Adobe Premiere Pro")
    } else if str_eq(ext, "prel") {
        Some("Adobe Premiere Elements")
    } else if str_eq(ext, "lrcat") {
        Some("Adobe Lightroom")
    } else if str_eq(ext, "lrtemplate") {
        Some("Adobe Lightroom")
    } else if str_eq(ext, "xmp") {
        Some("Adobe Lightroom")
    } else if str_eq(ext, "dng") {
        Some("Adobe Lightroom")
    } else if str_eq(ext, "fla") {
        Some("Adobe Animate")
    } else if str_eq(ext, "xfl") {
        Some("Adobe Animate")
    } else if str_eq(ext, "swf") {
        Some("Adobe Flash Player")
    } else if str_eq(ext, "ase") {
        Some("Adobe Swatch Exchange")
    } else if str_eq(ext, "aco") {
        Some("Adobe Photoshop")
    } else if str_eq(ext, "abr") {
        Some("Adobe Photoshop")
    } else if str_eq(ext, "pat") {
        Some("Adobe Photoshop")
    } else if str_eq(ext, "csh") {
        Some("Adobe Photoshop")
    } else if str_eq(ext, "grd") {
        Some("Adobe Photoshop")
    } else if str_eq(ext, "sketch") {
        Some("Sketch")
    } else if str_eq(ext, "fig") {
        Some("Figma")
    } else if str_eq(ext, "jam") {
        Some("Figma")
    } else if str_eq(ext, "xd") {
        Some("Adobe XD")
    } else if str_eq(ext, "afdesign") {
        Some("Affinity Designer")
    } else if str_eq(ext, "afphoto") {
        Some("Affinity Photo")
    } else if str_eq(ext, "afpub") {
        Some("Affinity Publisher")
    } else if str_eq(ext, "cdr") {
        Some("CorelDRAW")
    } else if str_eq(ext, "cdt") {
        Some("CorelDRAW")
    } else if str_eq(ext, "cmx") {
        Some("CorelDRAW")
    } else if str_eq(ext, "pxm") {
        Some("Pixelmator Pro")
    } else if str_eq(ext, "acorn") {
        Some("Acorn")
    } else if str_eq(ext, "blend") {
        Some("Blender")
    } else if str_eq(ext, "blend1") {
        Some("Blender")
    } else if str_eq(ext, "max") {
        Some("3ds Max")
    } else if str_eq(ext, "3ds") {
        Some("3ds Max")
    } else if str_eq(ext, "ma") {
        Some("Maya")
    } else if str_eq(ext, "mb") {
        Some("Maya")
    } else if str_eq(ext, "c4d") {
        Some("Cinema 4D")
    } else if str_eq(ext, "skp") {
        Some("SketchUp")
    } else if str_eq(ext, "obj") {
        Some("预览")
    } else if str_eq(ext, "fbx") {
        Some("预览")
    } else if str_eq(ext, "stl") {
        Some("预览")
    } else if str_eq(ext, "glb") {
        Some("预览")
    } else if str_eq(ext, "gltf") {
        Some("预览")
    } else if str_eq(ext, "usdz") {
        Some("预览")
    } else if str_eq(ext, "usd") {
        Some("预览")
    } else if str_eq(ext, "usda") {
        Some("预览")
    } else if str_eq(ext, "usdc") {
        Some("预览")
    } else if str_eq(ext, "ttf") {
        Some("字体册")
    } else if str_eq(ext, "otf") {
        Some("字体册")
    } else if str_eq(ext, "woff") {
        Some("字体册")
    } else if str_eq(ext, "woff2") {
        Some("字体册")
    } else if str_eq(ext, "jpg") {
        Some("预览")
    } else if str_eq(ext, "jpeg") {
        Some("预览")
    } else if str_eq(ext, "jpe") {
        Some("预览")
    } else if str_eq(ext, "jfif") {
        Some("预览")
    } else if str_eq(ext, "png") {
        Some("预览")
    } else if str_eq(ext, "gif") {
        Some("预览")
    } else if str_eq(ext, "webp") {
        Some("预览")
    } else if str_eq(ext, "bmp") {
        Some("预览")
    } else if str_eq(ext, "heic") {
        Some("预览")
    } else if str_eq(ext, "heif") {
        Some("预览")
    } else if str_eq(ext, "heics") {
        Some("预览")
    } else if str_eq(ext, "tif") {
        Some("预览")
    } else if str_eq(ext, "tiff") {
        Some("预览")
    } else if str_eq(ext, "ico") {
        Some("预览")
    } else if str_eq(ext, "icns") {
        Some("预览")
    } else if str_eq(ext, "eps") {
        Some("预览")
    } else if str_eq(ext, "svg") {
        Some("预览")
    } else if str_eq(ext, "svgz") {
        Some("预览")
    } else if str_eq(ext, "raw") {
        Some("预览")
    } else if str_eq(ext, "cr2") {
        Some("预览")
    } else if str_eq(ext, "cr3") {
        Some("预览")
    } else if str_eq(ext, "crw") {
        Some("预览")
    } else if str_eq(ext, "nef") {
        Some("预览")
    } else if str_eq(ext, "nrw") {
        Some("预览")
    } else if str_eq(ext, "arw") {
        Some("预览")
    } else if str_eq(ext, "srf") {
        Some("预览")
    } else if str_eq(ext, "sr2") {
        Some("预览")
    } else if str_eq(ext, "orf") {
        Some("预览")
    } else if str_eq(ext, "rw2") {
        Some("预览")
    } else if str_eq(ext, "pef") {
        Some("预览")
    } else if str_eq(ext, "raf") {
        Some("预览")
    } else if str_eq(ext, "dcr") {
        Some("预览")
    } else if str_eq(ext, "kdc") {
        Some("预览")
    } else if str_eq(ext, "mrw") {
        Some("预览")
    } else if str_eq(ext, "3fr") {
        Some("预览")
    } else if str_eq(ext, "fff") {
        Some("预览")
    } else if str_eq(ext, "exr") {
        Some("预览")
    } else if str_eq(ext, "hdr") {
        Some("预览")
    } else if str_eq(ext, "avif") {
        Some("预览")
    } else if str_eq(ext, "mp4") {
        Some("QuickTime Player")
    } else if str_eq(ext, "m4v") {
        Some("QuickTime Player")
    } else if str_eq(ext, "mov") {
        Some("QuickTime Player")
    } else if str_eq(ext, "avi") {
        Some("QuickTime Player")
    } else if str_eq(ext, "mkv") {
        Some("QuickTime Player")
    } else if str_eq(ext, "webm") {
        Some("QuickTime Player")
    } else if str_eq(ext, "wmv") {
        Some("QuickTime Player")
    } else if str_eq(ext, "flv") {
        Some("QuickTime Player")
    } else if str_eq(ext, "mp3") {
        Some("音乐")
    } else if str_eq(ext, "m4a") {
        Some("音乐")
    } else if str_eq(ext, "m4p") {
        Some("音乐")
    } else if str_eq(ext, "wav") {
        Some("音乐")
    } else if str_eq(ext, "aiff") {
        Some("音乐")
    } else if str_eq(ext, "aif") {
        Some("音乐")
    } else if str_eq(ext, "flac") {
        Some("音乐")
    } else if str_eq(ext, "aac") {
        Some("音乐")
    } else if str_eq(ext, "ogg") {
        Some("音乐")
    } else if str_eq(ext, "wma") {
        Some("音乐")
    } else if str_eq(ext, "m4r") {
        Some("音乐")
    } else if str_eq(ext, "caf") {
        Some("音乐")
    } else if str_eq(ext, "pdf") {
        Some("预览")
    } else if str_eq(ext, "doc") {
        Some("Microsoft Word")
    } else if str_eq(ext, "docx") {
        Some("Microsoft Word")
    } else if str_eq(ext, "dot") {
        Some("Microsoft Word")
    } else if str_eq(ext, "dotx") {
        Some("Microsoft Word")
    } else if str_eq(ext, "xls") {
        Some("Microsoft Excel")
    } else if str_eq(ext, "xlsx") {
        Some("Microsoft Excel")
    } else if str_eq(ext, "xlt") {
        Some("Microsoft Excel")
    } else if str_eq(ext, "xltx") {
        Some("Microsoft Excel")
    } else if str_eq(ext, "csv") {
        Some("Microsoft Excel")
    } else if str_eq(ext, "ppt") {
        Some("Microsoft PowerPoint")
    } else if str_eq(ext, "pptx") {
        Some("Microsoft PowerPoint")
    } else if str_eq(ext, "pot") {
        Some("Microsoft PowerPoint")
    } else if str_eq(ext, "potx") {
        Some("Microsoft PowerPoint")
    } else if str_eq(ext, "txt") {
        Some("文本编辑")
    } else if str_eq(ext, "md") {
        Some("文本编辑")
    } else if str_eq(ext, "rtf") {
        Some("文本编辑")
    } else if str_eq(ext, "rtfd") {
        Some("文本编辑")
    } else if str_eq(ext, "pages") {
        Some("Pages")
    } else if str_eq(ext, "numbers") {
        Some("Numbers")
    } else if str_eq(ext, "key") {
        Some("Keynote")
    } else if str_eq(ext, "kth") {
        Some("Keynote")
    } else if str_eq(ext, "odt") {
        Some("LibreOffice")
    } else if str_eq(ext, "ods") {
        Some("LibreOffice")
    } else if str_eq(ext, "odp") {
        Some("LibreOffice")
    } else if str_eq(ext, "rs") {
        Some("Xcode")
    } else if str_eq(ext, "swift") {
        Some("Xcode")
    } else if str_eq(ext, "c") {
        Some("Xcode")
    } else if str_eq(ext, "cpp") {
        Some("Xcode")
    } else if str_eq(ext, "h") {
        Some("Xcode")
    } else if str_eq(ext, "hpp") {
        Some("Xcode")
    } else if str_eq(ext, "m") {
        Some("Xcode")
    } else if str_eq(ext, "mm") {
        Some("Xcode")
    } else if str_eq(ext, "playground") {
        Some("Xcode")
    } else if str_eq(ext, "xcodeproj") {
        Some("Xcode")
    } else if str_eq(ext, "xcworkspace") {
        Some("Xcode")
    } else if str_eq(ext, "storyboard") {
        Some("Xcode")
    } else if str_eq(ext, "xib") {
        Some("Xcode")
    } else if str_eq(ext, "ts") {
        Some("Visual Studio Code")
    } else if str_eq(ext, "tsx") {
        Some("Visual Studio Code")
    } else if str_eq(ext, "js") {
        Some("Visual Studio Code")
    } else if str_eq(ext, "jsx") {
        Some("Visual Studio Code")
    } else if str_eq(ext, "json") {
        Some("Visual Studio Code")
    } else if str_eq(ext, "toml") {
        Some("Visual Studio Code")
    } else if str_eq(ext, "yaml") {
        Some("Visual Studio Code")
    } else if str_eq(ext, "yml") {
        Some("Visual Studio Code")
    } else if str_eq(ext, "py") {
        Some("Visual Studio Code")
    } else if str_eq(ext, "go") {
        Some("Visual Studio Code")
    } else if str_eq(ext, "java") {
        Some("Visual Studio Code")
    } else if str_eq(ext, "html") {
        Some("Safari 浏览器")
    } else if str_eq(ext, "htm") {
        Some("Safari 浏览器")
    } else if str_eq(ext, "css") {
        Some("Safari 浏览器")
    } else if str_eq(ext, "scss") {
        Some("Visual Studio Code")
    } else if str_eq(ext, "less") {
        Some("Visual Studio Code")
    } else if str_eq(ext, "sass") {
        Some("Visual Studio Code")
    } else if str_eq(ext, "rb") {
        Some("Visual Studio Code")
    } else if str_eq(ext, "php") {
        Some("Visual Studio Code")
    } else if str_eq(ext, "sql") {
        Some("Visual Studio Code")
    } else if str_eq(ext, "sh") {
        Some("终端")
    } else if str_eq(ext, "bash") {
        Some("终端")
    } else if str_eq(ext, "zsh") {
        Some("终端")
    } else if str_eq(ext, "fish") {
        Some("终端")
    } else if str_eq(ext, "xml") {
        Some("Safari 浏览器")
    } else if str_eq(ext, "plist") {
        Some("Xcode")
    } else if str_eq(ext, "zip") {
        Some("归档实用工具")
    } else if str_eq(ext, "rar") {
        Some("归档实用工具")
    } else if str_eq(ext, "7z") {
        Some("归档实用工具")
    } else if str_eq(ext, "tar") {
        Some("归档实用工具")
    } else if str_eq(ext, "gz") {
        Some("归档实用工具")
    } else if str_eq(ext, "bz2") {
        Some("归档实用工具")
    } else if str_eq(ext, "xz") {
        Some("归档实用工具")
    } else if str_eq(ext, "tgz") {
        Some("归档实用工具")
    } else if str_eq(ext, "tbz2") {
        Some("归档实用工具")
    } else if str_eq(ext, "dmg") {
        Some("磁盘工具")
    } else if str_eq(ext, "iso") {
        Some("磁盘工具")
    } else if str_eq(ext, "sparseimage") {
        Some("磁盘工具")
    } else if str_eq(ext, "sparsebundle") {
        Some("磁盘工具")
    } else {
        None
    }
}

/// The English name of an application whose name is given in Chinese; other
/// names are already English.
pub open spec fn english_name(name: Seq<char>) -> Seq<char> {
    if name == "预览"@ {
        "Preview"@
    } else if name == "文本编辑"@ {
        "TextEdit"@
    } else if name == "字体册"@ {
        "Font Book"@
    } else if name == "音乐"@ {
        "Music"@
    } else if name == "终端"@ {
        "Terminal"@
    } else if name == "归档实用工具"@ {
        "Archive Utility"@
    } else if name == "磁盘工具"@ {
        "Disk Utility"@
    } else if name == "其他"@ {
        "Other"@
    } else if name == "Safari 浏览器"@ {
        "Safari"@
    } else {
        name
    }
}

pub fn english_app_name(name: &str) -> (r: String)
    ensures
        r@ == english_name(name@),
{
    if str_eq(name, "预览") {
        owned("Preview")
    } else if str_eq(name, "文本编辑") {
        owned("TextEdit")
    } else if str_eq(name, "字体册") {
        owned("Font Book")
    } else if str_eq(name, "音乐") {
        owned("Music")
    } else if str_eq(name, "终端") {
        owned("Terminal")
    } else if str_eq(name, "归档实用工具") {
        owned("Archive Utility")
    } else if str_eq(name, "磁盘工具") {
        owned("Disk Utility")
    } else if str_eq(name, "其他") {
        owned("Other")
    } else if str_eq(name, "Safari 浏览器") {
        owned("Safari")
    } else {
        owned(name)
    }
}

// ─────────────────────────── extensions and application names ───────────────────────────

/// The extension of a file name: what follows its last `.`, lower-cased;
/// empty when there is no `.`.
pub open spec fn ext_of(filename: Seq<char>) -> Seq<char> {
    match last_dot(filename) {
        Some(k) => lowercase(filename.skip(k + 1)),
        None => Seq::empty(),
    }
}

/// Extract file extension from a filename (without the dot), lowercased.
pub fn extension_of(filename: &str) -> (r: String)
    ensures
        r@ == ext_of(filename@),
{
    let v = chars_of(filename);
    match last_dot_exec(&v) {
        Some(i) => {
            proof {
                lemma_last_dot_bound(v@);
            }
            let tail = string_of(&slice_chars(&v, i + 1, v.len()));
            assert(tail@ == filename@.skip(i + 1));
            to_lowercase(tail.as_str())
        },
        None => String::new(),
    }
}

/// The application for an extension, or `其他` ("other").
pub open spec fn app_cn(ext: Seq<char>) -> Seq<char> {
    if ext.len() == 0 {
        "其他"@
    } else {
        match known_app(lowercase(ext)) {
            Some(a) => a,
            None => "其他"@,
        }
    }
}

/// The application for an extension in English, or `Other`.
pub open spec fn app_en(ext: Seq<char>) -> Seq<char> {
    if ext.len() == 0 {
        "Other"@
    } else {
        english_name(
            match known_app(lowercase(ext)) {
                Some(a) => a,
                None => "Other"@,
            },
        )
    }
}

/// Return the default macOS application name for a file, based on its extension.
/// Returns "其他" if the extension is unknown.
pub fn app_for_extension(ext: &str) -> (r: String)
    ensures
        r@ == app_cn(ext@),
{
    if ext.is_empty() {
        return owned("其他");
    }
    let lower = to_lowercase(ext);
    match known_app_for(lower.as_str()) {
        Some(a) => owned(a),
        None => owned("其他"),
    }
}

/// Return the application name in English (for non-Chinese settings).
pub fn app_for_extension_en(ext: &str) -> (r: String)
    ensures
        r@ == app_en(ext@),
{
    if ext.is_empty() {
        return owned("Other");
    }
    let lower = to_lowercase(ext);
    let cn_name = match known_app_for(lower.as_str()) {
        Some(a) => owned(a),
        None => owned("Other"),
    };
    english_app_name(cn_name.as_str())
}

/// The English application name is the Chinese one put into English: for
/// every extension, `app_for_extension_en` gives the English name of what
/// `app_for_extension` gives.
pub proof fn lemma_app_en_translates_app_cn(ext: Seq<char>)
    ensures
        app_en(ext) == english_name(app_cn(ext)),
{
    reveal_strlit("预览");
    reveal_strlit("文本编辑");
    reveal_strlit("字体册");
    reveal_strlit("音乐");
    reveal_strlit("终端");
    reveal_strlit("归档实用工具");
    reveal_strlit("磁盘工具");
    reveal_strlit("其他");
    reveal_strlit("Safari 浏览器");
    reveal_strlit("Other");
    assert("Other"@ != "预览"@ && "Other"@ != "文本编辑"@ && "Other"@ != "字体册"@ && "Other"@
        != "音乐"@ && "Other"@ != "终端"@ && "Other"@ != "归档实用工具"@ && "Other"@
        != "磁盘工具"@ && "Other"@ != "其他"@ && "Other"@ != "Safari 浏览器"@) by {
        assert("Other"@[0] == 'O');
        assert("Safari 浏览器"@[0] == 'S');
    }
    assert("其他"@ != "预览"@ && "其他"@ != "文本编辑"@ && "其他"@ != "字体册"@ && "其他"@ != "音乐"@
        && "其他"@ != "终端"@ && "其他"@ != "归档实用工具"@ && "其他"@ != "磁盘工具"@) by {
        assert("其他"@[0] == '其');
    }
}

// ─────────────────────────── grouping ───────────────────────────

/// The application a result path is grouped under.
pub open spec fn path_app(path: Seq<char>, english: bool) -> Seq<char> {
    let ext = ext_of(or_empty(file_name(path)));
    if english {
        app_en(ext)
    } else {
        app_cn(ext)
    }
}

pub fn path_app_exec(path: &str, english: bool) -> (r: String)
    ensures
        r@ == path_app(path@, english),
{
    let name = match file_name_str(path) {
        Some(n) => n,
        None => String::new(),
    };
    let ext = extension_of(name.as_str());
    if english {
        app_for_extension_en(ext.as_str())
    } else {
        app_for_extension(ext.as_str())
    }
}

/// The paths among `paths` grouped under `app`, in their order.
pub open spec fn members(paths: Seq<Seq<char>>, app: Seq<char>, english: bool) -> Seq<Seq<char>>
    decreases paths.len(),
{
    if paths.len() == 0 {
        Seq::empty()
    } else {
        let prev = members(paths.drop_last(), app, english);
        if path_app(paths.last(), english) == app {
            prev.push(paths.last())
        } else {
            prev
        }
    }
}

/// Bigger groups first; equally big ones by application name.
pub open spec fn group_before(a: (Seq<char>, Seq<Seq<char>>), b: (Seq<char>, Seq<Seq<char>>)) -> bool {
    a.1.len() > b.1.len() || (a.1.len() == b.1.len() && text_le(a.0, b.0))
}

/// How groups are ordered: by size, largest first, then by name.
#[derive(Clone, Debug)]
pub struct GroupKey {
    pub count: usize,
    pub name: Vec<char>,
}

impl OrderKey for GroupKey {
    open spec fn le(&self, other: &Self) -> bool {
        self.count > other.count || (self.count == other.count && text_le(self.name@, other.name@))
    }

    proof fn lemma_total(a: &Self, b: &Self) {
        lemma_text_total(a.name@, b.name@);
    }

    proof fn lemma_trans(a: &Self, b: &Self, c: &Self) {
        if a.count == b.count && b.count == c.count {
            lemma_text_trans(a.name@, b.name@, c.name@);
        }
    }

    fn key_le(&self, other: &Self) -> (r: bool) {
        self.count > other.count || (self.count == other.count && text_le_exec(&self.name, &other.name))
    }
}

pub open spec fn group_views(r: Seq<(String, Vec<String>)>) -> Seq<(Seq<char>, Seq<Seq<char>>)> {
    r.map_values(|g: (String, Vec<String>)| (g.0@, views(g.1@)))
}

/// What grouping promises: one group per application that occurs, each
/// holding exactly the paths of that application in their order, ordered
/// largest first and then by name.
pub open spec fn is_grouping(paths: Seq<Seq<char>>, english: bool, groups: Seq<(Seq<char>, Seq<Seq<char>>)>) -> bool {
    let apps = distinct(paths.map_values(|p: Seq<char>| path_app(p, english)));
    &&& groups.len() == apps.len()
    &&& forall|i: int| 0 <= i < groups.len() ==> apps.contains(#[trigger] groups[i].0)
    &&& forall|i: int| 0 <= i < groups.len() ==> #[trigger] groups[i].1 == members(paths, groups[i].0, english)
    &&& forall|i: int, j: int| 0 <= i < j < groups.len() ==> groups[i].0 != groups[j].0
    &&& forall|i: int, j: int| 0 <= i < j < groups.len() ==> group_before(groups[i], groups[j])
}

fn collect_members(paths: &[String], apps: &Vec<String>, app: &String, english: bool) -> (r: Vec<String>)
    requires
        apps@.len() == paths@.len(),
        forall|k: int| 0 <= k < paths@.len() ==> #[trigger] apps@[k]@ == path_app(paths@[k]@, english),
    ensures
        views(r@) == members(views(paths@), app@, english),
{
    let ghost pv = views(paths@);
    let mut r: Vec<String> = Vec::new();
    let mut i: usize = 0;
    while i < paths.len()
        invariant
            i <= paths.len(),
            apps@.len() == paths@.len(),
            forall|k: int| 0 <= k < paths@.len() ==> #[trigger] apps@[k]@ == path_app(paths@[k]@, english),
            pv == views(paths@),
            views(r@) == members(pv.take(i as int), app@, english),
        decreases paths.len() - i,
    {
        assert(pv.take(i + 1).drop_last() =~= pv.take(i as int));
        assert(pv.take(i + 1).last() == paths@[i as int]@);
        assert(apps@[i as int]@ == path_app(paths@[i as int]@, english));
        if str_eq(apps[i].as_str(), app.as_str()) {
            let s = paths[i].clone();
            proof {
                lemma_views_push(r@, s);
            }
            r.push(s);
        }
        i = i + 1;
    }
    assert(pv.take(paths.len() as int) =~= pv);
    r
}

fn group_paths(paths: &[String], english: bool) -> (r: Vec<(String, Vec<String>)>)
    ensures
        is_grouping(views(paths@), english, group_views(r@)),
{
    let ghost pv = views(paths@);
    let ghost all_apps = pv.map_values(|p: Seq<char>| path_app(p, english));
    // the application of every path
    let mut apps: Vec<String> = Vec::new();
    let mut i: usize = 0;
    while i < paths.len()
        invariant
            i <= paths.len(),
            pv == views(paths@),
            apps@.len() == i,
            forall|k: int| 0 <= k < i ==> #[trigger] apps@[k]@ == path_app(paths@[k]@, english),
        decreases paths.len() - i,
    {
        let a = path_app_exec(paths[i].as_str(), english);
        apps.push(a);
        i = i + 1;
    }
    assert(views(apps@) =~= all_apps);
    let names = distinct_strings(&apps);
    proof {
        lemma_distinct_props(all_apps);
    }
    // the members and key of every application
    let mut groups: Vec<Vec<String>> = Vec::new();
    let mut keys: Vec<GroupKey> = Vec::new();
    let mut g: usize = 0;
    while g < names.len()
        invariant
            g <= names.len(),
            apps@.len() == paths@.len(),
            forall|k: int| 0 <= k < paths@.len() ==> #[trigger] apps@[k]@ == path_app(paths@[k]@, english),
            groups@.len() == g,
            keys@.len() == g,
            forall|k: int| 0 <= k < g ==> views(#[trigger] groups@[k]@) == members(pv, names@[k]@, english),
            forall|k: int| 0 <= k < g ==> (#[trigger] keys@[k]).count == groups@[k]@.len() && keys@[k].name@ == names@[k]@,
            pv == views(paths@),
        decreases names.len() - g,
    {
        let m = collect_members(paths, &apps, &names[g], english);
        let key = GroupKey { count: m.len(), name: chars_of(names[g].as_str()) };
        keys.push(key);
        groups.push(m);
        g = g + 1;
    }
    let order = stable_order(&keys, true);
    let mut r: Vec<(String, Vec<String>)> = Vec::new();
    let mut k: usize = 0;
    while k < order.len()
        invariant
            k <= order.len(),
            order@.len() == names@.len(),
            groups@.len() == names@.len(),
            keys@.len() == names@.len(),
            is_stable_order(keys@, true, order@),
            forall|j: int| 0 <= j < groups@.len() ==> views(#[trigger] groups@[j]@) == members(pv, names@[j]@, english),
            forall|j: int| 0 <= j < keys@.len() ==> (#[trigger] keys@[j]).count == groups@[j]@.len() && keys@[j].name@ == names@[j]@,
            r@.len() == k,
            forall|j: int| 0 <= j < k ==> (#[trigger] r@[j]).0@ == names@[order@[j] as int]@ && views(r@[j].1@) == views(groups@[order@[j] as int]@),
        decreases order.len() - k,
    {
        let o = order[k];
        let name = names[o].clone();
        let members = clone_strings(&groups[o]);
        r.push((name, members));
        k = k + 1;
    }
    proof {
        let gv = group_views(r@);
        let apps_d = distinct(all_apps);
        assert(views(names@) == apps_d);
        assert forall|i: int| 0 <= i < gv.len() implies apps_d.contains(#[trigger] gv[i].0) by {
            let o = order@[i] as int;
            assert(gv[i].0 == names@[o]@);
            assert(apps_d[o] == names@[o]@);
        }
        assert forall|i: int| 0 <= i < gv.len() implies #[trigger] gv[i].1 == members(pv, gv[i].0, english) by {
            let o = order@[i] as int;
            assert(gv[i].0 == names@[o]@);
        }
        assert forall|i: int, j: int| 0 <= i < j < gv.len() implies gv[i].0 != gv[j].0 by {
            let oi = order@[i] as int;
            let oj = order@[j] as int;
            assert(gv[i].0 == apps_d[oi]);
            assert(gv[j].0 == apps_d[oj]);
            assert(oi != oj);
            if oi < oj {
            } else {
            }
        }
        assert forall|i: int, j: int| 0 <= i < j < gv.len() implies group_before(gv[i], gv[j]) by {
            let oi = order@[i] as int;
            let oj = order@[j] as int;
            assert(crate::sorting::goes_before(keys@, true, oi, oj));
            assert(gv[i].1.len() == keys@[oi].count);
            assert(gv[j].1.len() == keys@[oj].count);
        }
    }
    r
}

/// Group a list of file paths by their default application.
/// Returns a vec of (app_name, file_paths) sorted by file count descending.
pub fn group_by_app(paths: &[String]) -> (r: Vec<(String, Vec<String>)>)
    ensures
        is_grouping(views(paths@), false, group_views(r@)),
{
    group_paths(paths, false)
}

/// Same as group_by_app but with English app names.
pub fn group_by_app_en(paths: &[String]) -> (r: Vec<(String, Vec<String>)>)
    ensures
        is_grouping(views(paths@), true, group_views(r@)),
{
    group_paths(paths, true)
}

} // verus!
