//! The file-icon artwork: one small SVG document per icon stem, sorted by
//! stem.

use vstd::prelude::*;

verus! {

/// Each icon stem with its SVG document.
pub const ICON_SVGS: [(&'static str, &'static str); 40] = [
    ("_file", "<svg xmlns=\"http://www.w3.org/2000/svg\" viewBox=\"0 0 16 16\"><path d=\"M3 1h7l3 3v11H3z\" fill=\"#f38ba8\"/></svg>"),
    ("_folder", "<svg xmlns=\"http://www.w3.org/2000/svg\" viewBox=\"0 0 16 16\"><path d=\"M1 3h5l1 1h8v9H1z\" fill=\"#fab387\"/></svg>"),
    ("_folder_open", "<svg xmlns=\"http://www.w3.org/2000/svg\" viewBox=\"0 0 16 16\"><path d=\"M1 4h5l1 1h7v2H4l-2 6H1z\" fill=\"#f9e2af\"/><path d=\"M4 7h11l-2 6H2z\" fill=\"#f9e2af\"/></svg>"),
    ("c", "<svg xmlns=\"http://www.w3.org/2000/svg\" viewBox=\"0 0 16 16\"><path d=\"M3 1h7l3 3v11H3z\" fill=\"#a6e3a1\"/></svg>"),
    ("cargo", "<svg xmlns=\"http://www.w3.org/2000/svg\" viewBox=\"0 0 16 16\"><path d=\"M3 1h7l3 3v11H3z\" fill=\"#94e2d5\"/></svg>"),
    ("cpp", "<svg xmlns=\"http://www.w3.org/2000/svg\" viewBox=\"0 0 16 16\"><path d=\"M3 1h7l3 3v11H3z\" fill=\"#89dceb\"/></svg>"),
    ("css", "<svg xmlns=\"http://www.w3.org/2000/svg\" viewBox=\"0 0 16 16\"><path d=\"M3 1h7l3 3v11H3z\" fill=\"#74c7ec\"/></svg>"),
    ("docker", "<svg xmlns=\"http://www.w3.org/2000/svg\" viewBox=\"0 0 16 16\"><path d=\"M3 1h7l3 3v11H3z\" fill=\"#89b4fa\"/></svg>"),
    ("folder_assets", "<svg xmlns=\"http://www.w3.org/2000/svg\" viewBox=\"0 0 16 16\"><path d=\"M1 3h5l1 1h8v9H1z\" fill=\"#b4befe\"/></svg>"),
    ("folder_assets_open", "<svg xmlns=\"http://www.w3.org/2000/svg\" viewBox=\"0 0 16 16\"><path d=\"M1 4h5l1 1h7v2H4l-2 6H1z\" fill=\"#cba6f7\"/><path d=\"M4 7h11l-2 6H2z\" fill=\"#cba6f7\"/></svg>"),
    ("folder_docs", "<svg xmlns=\"http://www.w3.org/2000/svg\" viewBox=\"0 0 16 16\"><path d=\"M1 3h5l1 1h8v9H1z\" fill=\"#f38ba8\"/></svg>"),
    ("folder_docs_open", "<svg xmlns=\"http://www.w3.org/2000/svg\" viewBox=\"0 0 16 16\"><path d=\"M1 4h5l1 1h7v2H4l-2 6H1z\" fill=\"#fab387\"/><path d=\"M4 7h11l-2 6H2z\" fill=\"#fab387\"/></svg>"),
    ("folder_git", "<svg xmlns=\"http://www.w3.org/2000/svg\" viewBox=\"0 0 16 16\"><path d=\"M1 3h5l1 1h8v9H1z\" fill=\"#f9e2af\"/></svg>"),
    ("folder_git_open", "<svg xmlns=\"http://www.w3.org/2000/svg\" viewBox=\"0 0 16 16\"><path d=\"M1 4h5l1 1h7v2H4l-2 6H1z\" fill=\"#a6e3a1\"/><path d=\"M4 7h11l-2 6H2z\" fill=\"#a6e3a1\"/></svg>"),
    ("folder_github", "<svg xmlns=\"http://www.w3.org/2000/svg\" viewBox=\"0 0 16 16\"><path d=\"M1 3h5l1 1h8v9H1z\" fill=\"#94e2d5\"/></svg>"),
    ("folder_github_open", "<svg xmlns=\"http://www.w3.org/2000/svg\" viewBox=\"0 0 16 16\"><path d=\"M1 4h5l1 1h7v2H4l-2 6H1z\" fill=\"#89dceb\"/><path d=\"M4 7h11l-2 6H2z\" fill=\"#89dceb\"/></svg>"),
    ("folder_src", "<svg xmlns=\"http://www.w3.org/2000/svg\" viewBox=\"0 0 16 16\"><path d=\"M1 3h5l1 1h8v9H1z\" fill=\"#74c7ec\"/></svg>"),
    ("folder_src_open", "<svg xmlns=\"http://www.w3.org/2000/svg\" viewBox=\"0 0 16 16\"><path d=\"M1 4h5l1 1h7v2H4l-2 6H1z\" fill=\"#89b4fa\"/><path d=\"M4 7h11l-2 6H2z\" fill=\"#89b4fa\"/></svg>"),
    ("folder_tests", "<svg xmlns=\"http://www.w3.org/2000/svg\" viewBox=\"0 0 16 16\"><path d=\"M1 3h5l1 1h8v9H1z\" fill=\"#b4befe\"/></svg>"),
    ("folder_tests_open", "<svg xmlns=\"http://www.w3.org/2000/svg\" viewBox=\"0 0 16 16\"><path d=\"M1 4h5l1 1h7v2H4l-2 6H1z\" fill=\"#cba6f7\"/><path d=\"M4 7h11l-2 6H2z\" fill=\"#cba6f7\"/></svg>"),
    ("git", "<svg xmlns=\"http://www.w3.org/2000/svg\" viewBox=\"0 0 16 16\"><path d=\"M3 1h7l3 3v11H3z\" fill=\"#f38ba8\"/></svg>"),
    ("go", "<svg xmlns=\"http://www.w3.org/2000/svg\" viewBox=\"0 0 16 16\"><path d=\"M3 1h7l3 3v11H3z\" fill=\"#fab387\"/></svg>"),
    ("html", "<svg xmlns=\"http://www.w3.org/2000/svg\" viewBox=\"0 0 16 16\"><path d=\"M3 1h7l3 3v11H3z\" fill=\"#f9e2af\"/></svg>"),
    ("image", "<svg xmlns=\"http://www.w3.org/2000/svg\" viewBox=\"0 0 16 16\"><path d=\"M3 1h7l3 3v11H3z\" fill=\"#a6e3a1\"/></svg>"),
    ("javascript", "<svg xmlns=\"http://www.w3.org/2000/svg\" viewBox=\"0 0 16 16\"><path d=\"M3 1h7l3 3v11H3z\" fill=\"#94e2d5\"/></svg>"),
    ("json", "<svg xmlns=\"http://www.w3.org/2000/svg\" viewBox=\"0 0 16 16\"><path d=\"M3 1h7l3 3v11H3z\" fill=\"#89dceb\"/></svg>"),
    ("license", "<svg xmlns=\"http://www.w3.org/2000/svg\" viewBox=\"0 0 16 16\"><path d=\"M3 1h7l3 3v11H3z\" fill=\"#74c7ec\"/></svg>"),
    ("lock", "<svg xmlns=\"http://www.w3.org/2000/svg\" viewBox=\"0 0 16 16\"><path d=\"M3 1h7l3 3v11H3z\" fill=\"#89b4fa\"/></svg>"),
    ("makefile", "<svg xmlns=\"http://www.w3.org/2000/svg\" viewBox=\"0 0 16 16\"><path d=\"M3 1h7l3 3v11H3z\" fill=\"#b4befe\"/></svg>"),
    ("markdown", "<svg xmlns=\"http://www.w3.org/2000/svg\" viewBox=\"0 0 16 16\"><path d=\"M3 1h7l3 3v11H3z\" fill=\"#cba6f7\"/></svg>"),
    ("nix", "<svg xmlns=\"http://www.w3.org/2000/svg\" viewBox=\"0 0 16 16\"><path d=\"M3 1h7l3 3v11H3z\" fill=\"#f38ba8\"/></svg>"),
    ("python", "<svg xmlns=\"http://www.w3.org/2000/svg\" viewBox=\"0 0 16 16\"><path d=\"M3 1h7l3 3v11H3z\" fill=\"#fab387\"/></svg>"),
    ("readme", "<svg xmlns=\"http://www.w3.org/2000/svg\" viewBox=\"0 0 16 16\"><path d=\"M3 1h7l3 3v11H3z\" fill=\"#f9e2af\"/></svg>"),
    ("rust", "<svg xmlns=\"http://www.w3.org/2000/svg\" viewBox=\"0 0 16 16\"><path d=\"M3 1h7l3 3v11H3z\" fill=\"#a6e3a1\"/></svg>"),
    ("shell", "<svg xmlns=\"http://www.w3.org/2000/svg\" viewBox=\"0 0 16 16\"><path d=\"M3 1h7l3 3v11H3z\" fill=\"#94e2d5\"/></svg>"),
    ("svg", "<svg xmlns=\"http://www.w3.org/2000/svg\" viewBox=\"0 0 16 16\"><path d=\"M3 1h7l3 3v11H3z\" fill=\"#89dceb\"/></svg>"),
    ("text", "<svg xmlns=\"http://www.w3.org/2000/svg\" viewBox=\"0 0 16 16\"><path d=\"M3 1h7l3 3v11H3z\" fill=\"#74c7ec\"/></svg>"),
    ("toml", "<svg xmlns=\"http://www.w3.org/2000/svg\" viewBox=\"0 0 16 16\"><path d=\"M3 1h7l3 3v11H3z\" fill=\"#89b4fa\"/></svg>"),
    ("typescript", "<svg xmlns=\"http://www.w3.org/2000/svg\" viewBox=\"0 0 16 16\"><path d=\"M3 1h7l3 3v11H3z\" fill=\"#b4befe\"/></svg>"),
    ("yaml", "<svg xmlns=\"http://www.w3.org/2000/svg\" viewBox=\"0 0 16 16\"><path d=\"M3 1h7l3 3v11H3z\" fill=\"#cba6f7\"/></svg>"),
];

} // verus!
