//! The report of one lint: for each source file an excerpt of its text, with
//! the suppressed lints highlighted.

use vstd::prelude::*;
use crate::findings::FileFindings;
use crate::findings::FileView;
use crate::findings::LintFindings;
use crate::findings::files_view;
use crate::highlight::Cursor;
use crate::highlight::line_walk;
use crate::highlight::pieces_html;
use crate::highlight::push_line;
use crate::source::SourceFile;
use crate::source::Span;
use crate::source::UnitView;
use crate::source::path_view;
use crate::spanset::sorted_spans;
use crate::spanset::span_set;
use crate::spanset::law_span_set;
use crate::text::blank;
use crate::text::chars_of;
use crate::text::decimal;
use crate::text::is_blank;
use crate::text::lines_of;
use crate::text::lines_view;
use crate::text::push_decimal;
use crate::text::split_lines;
use crate::version::version_text;

verus! {

/// Whether a span lies within a text of `count` lines: it starts in a line
/// of the text, and ends in that line or in a later one.
pub open spec fn span_in_lines(span: Span, count: nat) -> bool {
    1 <= span.start.line <= span.end.line <= count
}

/// Whether every span of the list lies within a text of `count` lines.
pub open spec fn spans_in_lines(spans: Seq<Span>, count: nat) -> bool {
    forall|k: int| 0 <= k < spans.len() ==> span_in_lines(#[trigger] spans[k], count)
}

/// Whether the line at place `i`, counted from 0, is shown on account of
/// `span`: the span touches it, or it is the line before the span or the
/// line behind it and not blank.
pub open spec fn touches(lines: Seq<Seq<char>>, span: Span, i: int) -> bool {
    ||| span.start.line <= i + 1 <= span.end.line
    ||| (i + 2 == span.start.line && !is_blank(lines[i]))
    ||| (i == span.end.line && !is_blank(lines[i]))
}

/// Whether the line at place `i` is shown on account of one of the first
/// `count` spans.
pub open spec fn shown_by(lines: Seq<Seq<char>>, spans: Seq<Span>, count: int, i: int) -> bool {
    exists|k: int| 0 <= k < count && k < spans.len() && touches(lines, #[trigger] spans[k], i)
}

/// Whether the line at place `i` is shown.
pub open spec fn is_shown(lines: Seq<Seq<char>>, spans: Seq<Span>, i: int) -> bool {
    shown_by(lines, spans, spans.len() as int, i)
}

/// For each line, whether it is shown.
pub open spec fn shown(lines: Seq<Seq<char>>, spans: Seq<Span>) -> Seq<bool> {
    Seq::new(lines.len(), |i: int| is_shown(lines, spans, i))
}

/// For each line, whether it is shown.
pub fn shown_lines(lines: &Vec<Vec<char>>, spans: &Vec<Span>) -> (show: Vec<bool>)
    requires
        spans_in_lines(spans@, lines.len() as nat),
    ensures
        show@ == shown(lines_view(lines@), spans@),
{
    let ghost ls = lines_view(lines@);
    let n = lines.len();
    let mut show: Vec<bool> = Vec::new();
    let mut i: usize = 0;
    while i < n
        invariant
            i <= n,
            show.len() == i,
            forall|j: int| 0 <= j < i ==> !show@[j],
        decreases n - i,
    {
        show.push(false);
        i += 1;
    }
    let mut k: usize = 0;
    while k < spans.len()
        invariant
            k <= spans.len(),
            n == lines.len(),
            ls == lines_view(lines@),
            show.len() == n,
            spans_in_lines(spans@, n as nat),
            forall|j: int| 0 <= j < n ==> show@[j] == shown_by(ls, spans@, k as int, j),
        decreases spans.len() - k,
    {
        let start: usize = spans[k].start.line;
        let end: usize = spans[k].end.line;
        let ghost before = show@;
        assert(span_in_lines(spans@[k as int], n as nat));
        if start > 1 && !blank(lines[start - 2].as_slice()) {
            show.set(start - 2, true);
        }
        let ghost first = show@;
        proof {
            assert forall|j: int| 0 <= j < n implies first[j] == (before[j] || (j + 2 == start
                && !is_blank(ls[j]))) by {
                assert(ls[j] == lines@[j]@);
            }
        }
        let mut i: usize = start - 1;
        while i < end
            invariant
                start - 1 <= i <= end,
                end <= n,
                show.len() == n,
                first.len() == n,
                forall|j: int| 0 <= j < n ==> show@[j] == (first[j] || start - 1 <= j < i),
            decreases end - i,
        {
            show.set(i, true);
            i += 1;
        }
        let ghost middle = show@;
        if end < n && !blank(lines[end].as_slice()) {
            show.set(end, true);
        }
        proof {
            assert forall|j: int| 0 <= j < n implies show@[j] == (middle[j] || (j == end && !is_blank(
                ls[j],
            ))) by {
                assert(ls[j] == lines@[j]@);
            }
        }
        proof {
            let span = spans@[k as int];
            assert forall|j: int| 0 <= j < n implies show@[j] == shown_by(ls, spans@, k + 1, j) by {
                assert(ls[j] == lines@[j]@);
                assert(first[j] == (before[j] || (j + 2 == start && !is_blank(ls[j]))));
                assert(middle[j] == (first[j] || start - 1 <= j < end));
                assert(show@[j] == (middle[j] || (j == end && !is_blank(ls[j]))));
                assert(show@[j] == (before[j] || touches(ls, span, j)));
                if before[j] {
                    let w = choose|w: int|
                        0 <= w < k && w < spans@.len() && touches(ls, #[trigger] spans@[w], j);
                    assert(touches(ls, spans@[w], j));
                }
                if shown_by(ls, spans@, k + 1, j) {
                    let w = choose|w: int|
                        0 <= w < k + 1 && w < spans@.len() && touches(ls, #[trigger] spans@[w], j);
                    if w < k {
                        assert(shown_by(ls, spans@, k as int, j));
                    }
                }
            }
        }
        k += 1;
    }
    assert(show@ =~= shown(ls, spans@));
    show
}

/// `base`, and behind it the start of the row of line number `number`.
pub open spec fn row_open_onto(base: Seq<char>, number: nat) -> Seq<char> {
    base + "            <tr>\n"@ + "              <td><div class=\"lineno\">"@ + decimal(number)
        + "</div></td>\n"@ + "              <td>\n"@ + "                <div class=\"highlight\">\n"@
        + "                  <pre>"@
}

/// `base`, and behind it the sign that lines were left out, where `jump`
/// holds.
pub open spec fn jump_onto(base: Seq<char>, jump: bool) -> Seq<char> {
    if jump {
        base + "                  <div class=\"jump\"></div>\n"@
    } else {
        base
    }
}

/// `base`, and behind it the end of a row.
pub open spec fn row_close_onto(base: Seq<char>) -> Seq<char> {
    base + "                </div>\n"@ + "              </td>\n"@ + "            </tr>\n"@
}

/// `base`, and behind it the row of the line `chars`, which is line number
/// `number` and starts with the highlight in the state `mark`, `next`.
pub open spec fn row_onto(
    base: Seq<char>,
    chars: Seq<char>,
    number: usize,
    spans: Seq<Span>,
    mark: bool,
    next: int,
    jump: bool,
) -> Seq<char> {
    row_close_onto(
        jump_onto(
            row_open_onto(base, number as nat) + pieces_html(
                line_walk(chars, number, spans, mark, next).pieces,
            ) + "</pre>\n"@,
            jump,
        ),
    )
}

/// Whether lines are left out behind the line at place `i`, before a span
/// that is still pending.
pub open spec fn jumps(show: Seq<bool>, spans: Seq<Span>, i: int, next: int) -> bool {
    next < spans.len() && i + 1 < show.len() && !show[i + 1]
}

/// `base`, and behind it the rows of the shown lines from place `i` on. The
/// highlight is in the state `mark`, `next` at the start of line `i`, and
/// goes from each shown line to the next one.
pub open spec fn rows_onto(
    base: Seq<char>,
    lines: Seq<Seq<char>>,
    show: Seq<bool>,
    spans: Seq<Span>,
    i: int,
    mark: bool,
    next: int,
) -> Seq<char>
    decreases lines.len() - i,
{
    if i < 0 || i >= lines.len() {
        base
    } else if !show[i] {
        rows_onto(base, lines, show, spans, i + 1, mark, next)
    } else {
        let w = line_walk(lines[i], (i + 1) as usize, spans, mark, next);
        rows_onto(
            row_onto(
                base,
                lines[i],
                (i + 1) as usize,
                spans,
                mark,
                next,
                jumps(show, spans, i, w.next),
            ),
            lines,
            show,
            spans,
            i + 1,
            w.mark,
            w.next,
        )
    }
}

/// Appends the rows of the shown lines to `html`.
pub fn push_rows(html: &mut String, lines: &Vec<Vec<char>>, show: &Vec<bool>, spans: &Vec<Span>)
    requires
        show.len() == lines.len(),
    ensures
        final(html)@ == rows_onto(old(html)@, lines_view(lines@), show@, spans@, 0, false, 0),
{
    let ghost ls = lines_view(lines@);
    let mut cursor = Cursor { mark: false, next: 0 };
    let mut i: usize = 0;
    while i < lines.len()
        invariant
            i <= lines.len(),
            show.len() == lines.len(),
            ls == lines_view(lines@),
            cursor.next <= spans.len(),
            rows_onto(html@, ls, show@, spans@, i as int, cursor.mark, cursor.next as int)
                == rows_onto(old(html)@, ls, show@, spans@, 0, false, 0),
        decreases lines.len() - i,
    {
        if show[i] {
            let ghost w = line_walk(ls[i as int], (i + 1) as usize, spans@, cursor.mark, cursor.next as int);
            assert(ls[i as int] == lines@[i as int]@);
            html.append("            <tr>\n");
            html.append("              <td><div class=\"lineno\">");
            push_decimal(html, (i + 1) as u64);
            html.append("</div></td>\n");
            html.append("              <td>\n");
            html.append("                <div class=\"highlight\">\n");
            html.append("                  <pre>");
            let end = push_line(html, lines[i].as_slice(), i + 1, spans, cursor);
            html.append("</pre>\n");
            if end.next < spans.len() && i + 1 < show.len() && !show[i + 1] {
                html.append("                  <div class=\"jump\"></div>\n");
            }
            html.append("                </div>\n");
            html.append("              </td>\n");
            html.append("            </tr>\n");
            cursor = end;
        }
        i += 1;
    }
}


/// `base`, and behind it the names of the path's components from place `i`
/// on, with `/` between each two.
pub open spec fn join_onto(base: Seq<char>, path: Seq<Seq<char>>, i: int) -> Seq<char>
    decreases path.len() - i,
{
    if i < 0 || i >= path.len() {
        base
    } else if i == 0 {
        join_onto(base + path[i], path, i + 1)
    } else {
        join_onto(base + "/"@ + path[i], path, i + 1)
    }
}

/// `base`, and behind it the address of the file's text on docs.rs, with the
/// lint as the text to look for.
pub open spec fn url_onto(base: Seq<char>, unit: UnitView, lint_id: Seq<char>) -> Seq<char> {
    join_onto(
        base + "https://docs.rs/crate/"@ + unit.krate + "/"@ + version_text(unit.version)
            + "/source/"@,
        unit.path,
        0,
    ) + "#:~:text=clippy%3a%3a"@ + lint_id
}

/// The address of the file's text on docs.rs.
pub open spec fn url_of(unit: UnitView, lint_id: Seq<char>) -> Seq<char> {
    url_onto(Seq::empty(), unit, lint_id)
}

/// The address of the file's text on docs.rs, with the lint as the text to
/// look for.
pub fn file_url(lint_id: &str, source_file: &SourceFile) -> (url: String)
    ensures
        url@ == url_of(source_file@, lint_id@),
{
    let mut url = String::new();
    url.append("https://docs.rs/crate/");
    url.append(source_file.krate.as_str());
    url.append("/");
    source_file.version.push_to(&mut url);
    url.append("/source/");
    let ghost path = path_view(source_file.relative_path@);
    let ghost start = url@;
    let mut i: usize = 0;
    while i < source_file.relative_path.len()
        invariant
            i <= source_file.relative_path.len(),
            path == path_view(source_file.relative_path@),
            join_onto(url@, path, i as int) == join_onto(start, path, 0),
        decreases source_file.relative_path.len() - i,
    {
        assert(path[i as int] == source_file.relative_path@[i as int]@);
        if i > 0 {
            url.append("/");
        }
        url.append(source_file.relative_path[i].as_str());
        i += 1;
    }
    url.append("#:~:text=clippy%3a%3a");
    url.append(lint_id);
    url
}

/// `base`, and behind it the names of the path's components from place `i`
/// on: each directory with a place to break the line behind it, and the
/// file's name set apart.
pub open spec fn dirs_onto(base: Seq<char>, path: Seq<Seq<char>>, i: int) -> Seq<char>
    decreases path.len() - i,
{
    if i < 0 || i >= path.len() {
        base
    } else if i + 1 == path.len() {
        dirs_onto(base + "</span><span class=\"result-file-name\">"@ + path[i], path, i + 1)
    } else {
        dirs_onto(base + path[i] + "/<wbr>"@, path, i + 1)
    }
}

/// `base`, and behind it the start of the list item of a file, which bears
/// the anchor where one is given.
pub open spec fn item_onto(base: Seq<char>, anchor: Option<Seq<char>>) -> Seq<char> {
    match anchor {
        Some(name) => base + "    <li class=\"result\""@ + " id=\""@ + name + "\""@,
        None => base + "    <li class=\"result\""@,
    }
}

/// `base`, and behind it the title of a file: the package, the version and
/// the path, which link to `url`, and the start of the table of its lines.
pub open spec fn title_onto(
    base: Seq<char>,
    unit: UnitView,
    url: Seq<char>,
    anchor: Option<Seq<char>>,
) -> Seq<char> {
    dirs_onto(
        item_onto(base, anchor) + ">\n"@ + "      <div class=\"result-title\">\n"@
            + "        <div class=\"result-file-info\">\n"@
            + "          <div class=\"result-file\"><span class=\"result-crate\">"@ + unit.krate
            + "&nbsp;"@ + version_text(unit.version) + "</span><a href=\""@ + url
            + "\"><span class=\"result-file-directory\">/"@,
        unit.path,
        0,
    ) + "</span></a></div>\n"@ + "        </div>\n"@ + "      </div>\n"@
        + "      <div class=\"result-body\" onclick=\"window.open('"@ + url + "','docsrs')\">\n"@
        + "        <div class=\"result-background\"></div>\n"@
        + "        <div class=\"result-details\">\n"@
        + "          <table class=\"highlight-table\">\n"@
}

/// `base`, and behind it the excerpt of one file: its title and the rows of
/// the lines that are shown on account of `spans`.
pub open spec fn file_onto(
    base: Seq<char>,
    lint_id: Seq<char>,
    unit: UnitView,
    text: Seq<char>,
    spans: Seq<Span>,
    anchor: Option<Seq<char>>,
) -> Seq<char> {
    rows_onto(
        title_onto(base, unit, url_of(unit, lint_id), anchor),
        lines_of(text),
        shown(lines_of(text), spans),
        spans,
        0,
        false,
        0,
    ) + "          </table>\n"@ + "        </div>\n"@ + "      </div>\n"@ + "    </li>\n"@
}

/// What an optional name holds.
pub open spec fn name_view(name: Option<&str>) -> Option<Seq<char>> {
    match name {
        Some(n) => Some(n@),
        None => None,
    }
}

/// Appends the title of a file to `html`.
fn push_title(html: &mut String, source_file: &SourceFile, url: &str, anchor: Option<&str>)
    ensures
        final(html)@ == title_onto(old(html)@, source_file@, url@, name_view(anchor)),
{
    html.append("    <li class=\"result\"");
    match anchor {
        Some(name) => {
            html.append(" id=\"");
            html.append(name);
            html.append("\"");
        },
        None => {},
    }
    html.append(">\n");
    html.append("      <div class=\"result-title\">\n");
    html.append("        <div class=\"result-file-info\">\n");
    html.append("          <div class=\"result-file\"><span class=\"result-crate\">");
    html.append(source_file.krate.as_str());
    html.append("&nbsp;");
    source_file.version.push_to(html);
    html.append("</span><a href=\"");
    html.append(url);
    html.append("\"><span class=\"result-file-directory\">/");
    let ghost path = path_view(source_file.relative_path@);
    let ghost start = html@;
    let n = source_file.relative_path.len();
    let mut i: usize = 0;
    while i < n
        invariant
            i <= n,
            n == source_file.relative_path.len(),
            path == path_view(source_file.relative_path@),
            dirs_onto(html@, path, i as int) == dirs_onto(start, path, 0),
        decreases n - i,
    {
        assert(path[i as int] == source_file.relative_path@[i as int]@);
        if i + 1 == n {
            html.append("</span><span class=\"result-file-name\">");
            html.append(source_file.relative_path[i].as_str());
        } else {
            html.append(source_file.relative_path[i].as_str());
            html.append("/<wbr>");
        }
        i += 1;
    }
    html.append("</span></a></div>\n");
    html.append("        </div>\n");
    html.append("      </div>\n");
    html.append("      <div class=\"result-body\" onclick=\"window.open('");
    html.append(url);
    html.append("','docsrs')\">\n");
    html.append("        <div class=\"result-background\"></div>\n");
    html.append("        <div class=\"result-details\">\n");
    html.append("          <table class=\"highlight-table\">\n");
}

/// Appends the excerpt of one file to `html`: the lines that the spans
/// touch, each with its number, and the line before and the line behind a
/// span where that line is not blank. The text of the spans is highlighted.
/// `spans` is a set of spans, in ascending order.
pub fn render_file(
    html: &mut String,
    lint_id: &str,
    source_file: &SourceFile,
    contents: &str,
    spans: &Vec<Span>,
    anchor: Option<&str>,
)
    requires
        spans_in_lines(spans@, lines_of(contents@).len()),
    ensures
        final(html)@ == file_onto(
            old(html)@,
            lint_id@,
            source_file@,
            contents@,
            spans@,
            name_view(anchor),
        ),
{
    let url = file_url(lint_id, source_file);
    push_title(html, source_file, url.as_str(), anchor);
    let chars = chars_of(contents);
    let lines = split_lines(chars.as_slice());
    assert(lines.len() == lines_of(contents@).len());
    let show = shown_lines(&lines, spans);
    push_rows(html, &lines, &show, spans);
    html.append("          </table>\n");
    html.append("        </div>\n");
    html.append("      </div>\n");
    html.append("    </li>\n");
}


/// Whether every span of every file lies within the file's text.
pub open spec fn renderable(files: Seq<FileView>) -> bool {
    forall|i: int|
        0 <= i < files.len() ==> spans_in_lines(
            (#[trigger] files[i]).locations.global + files[i].locations.local,
            lines_of(files[i].locations.contents).len(),
        )
}

/// The name of the anchor of the first file with local spans, or of the
/// first file without.
pub open spec fn anchor_name(local: bool) -> Seq<char> {
    if local {
        "local"@
    } else {
        "global"@
    }
}

/// `base`, and behind it the excerpts of the files from place `i` on that
/// have local spans, where `local` holds, or that have none, where it does
/// not. The first of these files bears the anchor.
pub open spec fn section_onto(
    base: Seq<char>,
    lint_id: Seq<char>,
    files: Seq<FileView>,
    i: int,
    local: bool,
    first: bool,
) -> Seq<char>
    decreases files.len() - i,
{
    if i < 0 || i >= files.len() {
        base
    } else if (files[i].locations.local.len() > 0) == local {
        section_onto(
            file_onto(
                base,
                lint_id,
                files[i].unit,
                files[i].locations.contents,
                span_set(files[i].locations.global + files[i].locations.local),
                if first {
                    Some(anchor_name(local))
                } else {
                    None
                },
            ),
            lint_id,
            files,
            i + 1,
            local,
            false,
        )
    } else {
        section_onto(base, lint_id, files, i + 1, local, first)
    }
}

/// The start of a report.
pub open spec fn report_head() -> Seq<char> {
    Seq::empty() + "<!DOCTYPE html>\n"@ + "<html lang=\"en\">\n"@ + "<head>\n"@
        + "  <meta charset=\"utf-8\">\n"@ + "  <link rel=\"stylesheet\" href=\"style.css\">\n"@
        + "</head>\n"@ + "<body>\n"@ + "  <ul class=\"results-container\">\n"@
}

/// The report of one lint: the excerpts of the files that suppress it for an
/// item, then those of the files that suppress it for a whole scope only.
pub open spec fn report(lint_id: Seq<char>, files: Seq<FileView>) -> Seq<char> {
    section_onto(
        section_onto(report_head(), lint_id, files, 0, true, true),
        lint_id,
        files,
        0,
        false,
        true,
    ) + "  </ul>\n"@ + "</body>\n"@ + "</html>\n"@
}

/// Appends the excerpts of the files with local spans, or of those without.
fn push_section(html: &mut String, lint_id: &str, files: &Vec<FileFindings>, local: bool)
    requires
        renderable(files_view(files@)),
    ensures
        final(html)@ == section_onto(old(html)@, lint_id@, files_view(files@), 0, local, true),
{
    let ghost fs = files_view(files@);
    let mut first = true;
    let mut i: usize = 0;
    while i < files.len()
        invariant
            i <= files.len(),
            fs == files_view(files@),
            renderable(fs),
            section_onto(html@, lint_id@, fs, i as int, local, first) == section_onto(
                old(html)@,
                lint_id@,
                fs,
                0,
                local,
                true,
            ),
        decreases files.len() - i,
    {
        let file = &files[i];
        assert(fs[i as int] == file@);
        if (file.locations.local.len() > 0) == local {
            let spans = sorted_spans(&file.locations.global, &file.locations.local);
            proof {
                let all = file.locations.global@ + file.locations.local@;
                law_span_set(all);
                let count = lines_of(file.locations.contents@).len();
                assert(spans_in_lines(all, count));
                assert forall|k: int| 0 <= k < spans@.len() implies span_in_lines(
                    #[trigger] spans@[k],
                    count,
                ) by {
                    assert(spans@.contains(spans@[k]));
                    assert(all.contains(spans@[k]));
                    let w = choose|w: int| 0 <= w < all.len() && all[w] == spans@[k];
                    assert(span_in_lines(all[w], count));
                }
            }
            let anchor: Option<&str> = if first {
                if local {
                    Some("local")
                } else {
                    Some("global")
                }
            } else {
                None
            };
            render_file(
                html,
                lint_id,
                &file.file,
                file.locations.contents.as_str(),
                &spans,
                anchor,
            );
            first = false;
        }
        i += 1;
    }
}

/// Renders the report of one lint. The files with local spans come first,
/// and the first of them bears the anchor `local`; the files with global
/// spans only follow, and the first of them bears the anchor `global`.
pub fn render(lint_id: &str, files: &Vec<FileFindings>) -> (html: String)
    requires
        renderable(files_view(files@)),
    ensures
        html@ == report(lint_id@, files_view(files@)),
{
    let mut html = String::new();
    html.append("<!DOCTYPE html>\n");
    html.append("<html lang=\"en\">\n");
    html.append("<head>\n");
    html.append("  <meta charset=\"utf-8\">\n");
    html.append("  <link rel=\"stylesheet\" href=\"style.css\">\n");
    html.append("</head>\n");
    html.append("<body>\n");
    html.append("  <ul class=\"results-container\">\n");
    push_section(&mut html, lint_id, files, true);
    push_section(&mut html, lint_id, files, false);
    html.append("  </ul>\n");
    html.append("</body>\n");
    html.append("</html>\n");
    html
}

/// Whether every span of the list lies within a text of `count` lines.
fn within_lines(spans: &Vec<Span>, count: usize) -> (r: bool)
    ensures
        r == spans_in_lines(spans@, count as nat),
{
    let mut k: usize = 0;
    while k < spans.len()
        invariant
            k <= spans.len(),
            forall|j: int| 0 <= j < k ==> span_in_lines(#[trigger] spans@[j], count as nat),
        decreases spans.len() - k,
    {
        let s = spans[k];
        if !(1 <= s.start.line && s.start.line <= s.end.line && s.end.line <= count) {
            return false;
        }
        k += 1;
    }
    true
}

/// Whether every span of every file lies within the file's text, so that
/// the files can be rendered.
pub fn can_render(files: &Vec<FileFindings>) -> (r: bool)
    ensures
        r == renderable(files_view(files@)),
{
    let ghost fs = files_view(files@);
    let mut i: usize = 0;
    while i < files.len()
        invariant
            i <= files.len(),
            fs == files_view(files@),
            forall|j: int|
                0 <= j < i ==> spans_in_lines(
                    (#[trigger] fs[j]).locations.global + fs[j].locations.local,
                    lines_of(fs[j].locations.contents).len(),
                ),
        decreases files.len() - i,
    {
        let file = &files[i];
        assert(fs[i as int] == file@);
        let chars = chars_of(file.locations.contents.as_str());
        let lines = split_lines(chars.as_slice());
        let count = lines.len();
        assert(count == lines_of(file.locations.contents@).len());
        let ghost all = file.locations.global@ + file.locations.local@;
        let ok = within_lines(&file.locations.global, count) && within_lines(
            &file.locations.local,
            count,
        );
        proof {
            if ok {
                assert forall|k: int| 0 <= k < all.len() implies span_in_lines(
                    #[trigger] all[k],
                    count as nat,
                ) by {
                    if k < file.locations.global@.len() {
                        assert(all[k] == file.locations.global@[k]);
                    } else {
                        assert(all[k] == file.locations.local@[k - file.locations.global@.len()]);
                    }
                }
            } else if !spans_in_lines(file.locations.global@, count as nat) {
                let w = choose|w: int|
                    0 <= w < file.locations.global@.len() && !span_in_lines(
                        #[trigger] file.locations.global@[w],
                        count as nat,
                    );
                assert(all[w] == file.locations.global@[w]);
            } else {
                let w = choose|w: int|
                    0 <= w < file.locations.local@.len() && !span_in_lines(
                        #[trigger] file.locations.local@[w],
                        count as nat,
                    );
                assert(all[w + file.locations.global@.len()] == file.locations.local@[w]);
            }
        }
        if !ok {
            return false;
        }
        i += 1;
    }
    true
}

/// Renders the report of one lint, where every span lies within the text of
/// its file; `None` where one does not.
pub fn try_render(lint_id: &str, files: &Vec<FileFindings>) -> (html: Option<String>)
    ensures
        match html {
            Some(h) => renderable(files_view(files@)) && h@ == report(lint_id@, files_view(files@)),
            None => !renderable(files_view(files@)),
        },
{
    if can_render(files) {
        Some(render(lint_id, files))
    } else {
        None
    }
}

} // verus!
