//! A note as a printable HTML page.
//!
//! The page is a fixed frame around two things: the note's title, which
//! stands in the head and as the heading of the body, and the note's
//! content, rendered from Markdown. The title is put in as it is.

use crate::markdown::{markdown_to_html, note_html};
use vstd::prelude::*;
use vstd::string::StringExecFns;

verus! {

/// The page up to the title in its head.
pub const PAGE_OPENING: &'static str = r#"<!DOCTYPE html>
<html lang="zh-CN">
<head>
    <meta charset="UTF-8">
    <meta name="viewport" content="width=device-width, initial-scale=1.0">
    <title>"#;

/// From the end of the title in the head to the heading of the body: the style
/// sheet, with A4 pages and margins of 20mm for print.
pub const PAGE_STYLE: &'static str = r#"</title>
    <style>
        @page {
            size: A4;
            margin: 20mm;
        }
        
        body {
            font-family: -apple-system, BlinkMacSystemFont, 'Segoe UI', 'PingFang SC', 'Hiragino Sans GB', 'Microsoft YaHei', sans-serif;
            line-height: 1.6;
            color: #333;
            max-width: 800px;
            margin: 0 auto;
            padding: 40px 20px;
            background: white;
        }
        
        h1 {
            font-size: 28px;
            font-weight: 600;
            border-bottom: 2px solid #eee;
            padding-bottom: 10px;
            margin-top: 0;
            margin-bottom: 20px;
        }
        
        h2 {
            font-size: 24px;
            font-weight: 600;
            margin-top: 32px;
            margin-bottom: 16px;
        }
        
        h3 {
            font-size: 20px;
            font-weight: 600;
            margin-top: 24px;
            margin-bottom: 12px;
        }
        
        h4 {
            font-size: 18px;
            font-weight: 600;
            margin-top: 20px;
            margin-bottom: 10px;
        }
        
        p {
            margin-bottom: 16px;
        }
        
        a {
            color: #0066cc;
            text-decoration: none;
        }
        
        a:hover {
            text-decoration: underline;
        }
        
        code {
            background-color: #f3f4f6;
            padding: 2px 6px;
            border-radius: 4px;
            font-size: 0.9em;
            font-family: 'Consolas', 'Monaco', 'Courier New', monospace;
        }
        
        pre {
            background-color: #f3f4f6;
            padding: 16px;
            border-radius: 6px;
            overflow-x: auto;
            margin: 16px 0;
        }
        
        pre code {
            background: none;
            padding: 0;
        }
        
        blockquote {
            border-left: 4px solid #ddd;
            padding-left: 16px;
            margin: 16px 0;
            color: #666;
        }
        
        ul, ol {
            margin: 16px 0;
            padding-left: 32px;
        }
        
        li {
            margin: 8px 0;
        }
        
        table {
            border-collapse: collapse;
            width: 100%;
            margin: 16px 0;
            border: 1px solid #e5e7eb;
        }
        
        th {
            background-color: #f9fafb;
            border: 1px solid #e5e7eb;
            padding: 12px;
            text-align: left;
            font-weight: 600;
        }
        
        td {
            border: 1px solid #e5e7eb;
            padding: 12px;
        }
        
        img {
            max-width: 100%;
            height: auto;
            border-radius: 8px;
            border: 1px solid #e5e7eb;
            display: block;
            margin: 16px 0;
        }
        
        hr {
            border: none;
            border-top: 1px solid #e5e7eb;
            margin: 32px 0;
        }
        
        /* 任务列表样式 */
        input[type="checkbox"] {
            margin-right: 8px;
        }
        
        /* 删除线 */
        del {
            color: #999;
        }
        
        /* 打印优化 */
        @media print {
            body {
                padding: 0;
            }
            
            a {
                color: inherit;
                text-decoration: none;
            }
        }
    </style>
</head>
<body>
    <h1>"#;

/// From the end of the heading to the content.
pub const PAGE_CONTENT: &'static str = r#"</h1>
    <div class="content">
        "#;

/// The page after the content.
pub const PAGE_CLOSING: &'static str = r#"
    </div>
</body>
</html>"#;

/// The page for a note with the given title and with content that has
/// already been rendered to HTML.
pub open spec fn page_of(title: Seq<char>, content_html: Seq<char>) -> Seq<char> {
    PAGE_OPENING@ + title + PAGE_STYLE@ + title + PAGE_CONTENT@ + content_html + PAGE_CLOSING@
}

/// Builds the page for a note with the given title around content that has
/// already been rendered to HTML.
pub fn html_page(title: &str, content_html: &str) -> (page: String)
    ensures
        page@ == page_of(title@, content_html@),
{
    let mut page = String::from_str(PAGE_OPENING);
    page.append(title);
    page.append(PAGE_STYLE);
    page.append(title);
    page.append(PAGE_CONTENT);
    page.append(content_html);
    page.append(PAGE_CLOSING);
    page
}

/// Builds the page for a note with the given title and Markdown content.
pub fn generate_html_template(title: &str, content: &str) -> (page: String)
    ensures
        page@ == page_of(title@, note_html(content@)),
{
    let content_html = markdown_to_html(content);
    html_page(title, content_html.as_str())
}

} // verus!
