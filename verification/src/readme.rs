//! Updating the safety report section of a README: the section is found
//! by its header, and its body is replaced by the scan output in a code
//! block; a missing section is appended at the end.

use vstd::prelude::*;
use vstd::string::StringExecFns;

verus! {

/// The compiled form of a regular expression of the `regex` crate.
#[verifier::external_type_specification]
#[verifier::external_body]
pub struct ExRegex(regex::Regex);

/// Whether `regex::Regex::new` accepts the pattern.
pub uninterp spec fn regex_compiles(pattern: Seq<char>) -> bool;

/// Whether the regular expression `pattern` matches somewhere in `text`, as
/// `regex::Regex::is_match` decides it.
pub uninterp spec fn regex_is_match(pattern: Seq<char>, text: Seq<char>) -> bool;

/// A compiled regular expression together with its source.
pub struct LinePattern {
    source: String,
    regex: regex::Regex,
}

impl View for LinePattern {
    type V = Seq<char>;

    closed spec fn view(&self) -> Seq<char> {
        self.source@
    }
}

/// The text starts with `#`.
pub open spec fn starts_with_hash(t: Seq<char>) -> bool {
    t.len() > 0 && t[0] == '#'
}

/// An ASCII letter or digit, or a space.
pub open spec fn plain_name_char(c: char) -> bool {
    (48 <= c as int <= 57) || (65 <= c as int <= 90) || (97 <= c as int <= 122) || c == ' '
}

/// A non-empty name made of ASCII letters, digits and spaces: no character
/// of it means anything in a regular expression.
pub open spec fn plain_name(n: Seq<char>) -> bool {
    n.len() > 0 && forall|i: int| 0 <= i < n.len() ==> plain_name_char(#[trigger] n[i])
}

/// Calls `regex::Regex::new`. Trusted to succeed exactly when
/// `regex_compiles` holds of the pattern, and to keep the pattern as the
/// source of the result. Trusted also for two facts of the regular
/// expression syntax: `^#+.*` matches exactly the texts that start with
/// `#`; and a section header pattern for a name of ASCII letters, digits
/// and spaces (`^#+\s`, the name with `\s` for each space, `\s*`) matches
/// only texts that start with `#`, and matches `## ` followed by the name.
#[verifier::external_body]
fn compile_line_pattern(pattern: &str) -> (r: Option<LinePattern>)
    ensures
        r is Some <==> regex_compiles(pattern@),
        r matches Some(p) ==> p@ == pattern@,
        r is Some && pattern@ == any_header_source() ==> forall|t: Seq<char>|
            #[trigger] regex_is_match(pattern@, t) == starts_with_hash(t),
        r is Some ==> forall|n: Seq<char>|
            #[trigger] header_source_for(n) == pattern@ && plain_name(n) ==> (forall|t: Seq<char>|
                #[trigger] regex_is_match(pattern@, t) ==> starts_with_hash(t)) && regex_is_match(
                pattern@,
                "## "@ + n,
            ),
{
    match regex::Regex::new(pattern) {
        Ok(regex) => Some(LinePattern { source: pattern.to_owned(), regex }),
        Err(_) => None,
    }
}

/// Calls `regex::Regex::is_match`. Trusted to return
/// `regex_is_match` of the pattern's source and the text: the result
/// depends on these alone.
#[verifier::external_body]
fn line_matches(p: &LinePattern, text: &str) -> (r: bool)
    ensures
        r == regex_is_match(p@, text@),
{
    p.regex.is_match(text)
}

impl LinePattern {
    /// The source of the regular expression.
    pub fn as_str(&self) -> (r: &str)
        ensures
            r@ == self@,
    {
        self.source.as_str()
    }
}

/// The arguments that decide how the README is updated.
#[derive(Clone, Debug, Default, PartialEq, Eq)]
pub struct ReadmeArgs {
    /// The name of the section to create or replace.
    pub section_name: Option<String>,
    /// Whether the README is updated at all.
    pub update_readme: bool,
}

/// The pattern that matches any header line.
pub open spec fn any_header_source() -> Seq<char> {
    "^#+.*"@
}

/// The name with every space replaced by `\s`.
pub open spec fn spaces_as_whitespace_class(name: Seq<char>) -> Seq<char>
    decreases name.len(),
{
    if name.len() == 0 {
        Seq::empty()
    } else {
        spaces_as_whitespace_class(name.drop_last()) + if name.last() == ' ' {
            seq!['\\', 's']
        } else {
            seq![name.last()]
        }
    }
}

/// The name of the section when none is given.
pub open spec fn default_section_name() -> Seq<char> {
    "Cargo Geiger Safety Report"@
}

/// The pattern that matches the header of a section with the given name:
/// one or more `#`, a whitespace, then the name, where each space of the
/// name stands for any whitespace.
pub open spec fn header_source_for(name: Seq<char>) -> Seq<char> {
    "^#+\\s"@ + spaces_as_whitespace_class(name) + "\\s*"@
}

/// The name of the section, given or default.
pub open spec fn section_name_text(section_name: Option<String>) -> Seq<char> {
    match section_name {
        Some(name) => name@,
        None => default_section_name(),
    }
}

/// The pattern that matches the header of the section.
pub open spec fn section_header_source(section_name: Option<String>) -> Seq<char> {
    header_source_for(section_name_text(section_name))
}

/// The source of the regular expression for the header of a section with
/// the given name.
fn header_regex_source_for(s: &str) -> (r: String)
    ensures
        r@ == header_source_for(s@),
{
    let mut r = String::new();
    r.append("^#+\\s");
    let ghost start = r@;
    let n = s.unicode_len();
    let mut i: usize = 0;
    while i < n
        invariant
            n == s@.len(),
            i <= n,
            r@ == start + spaces_as_whitespace_class(s@.take(i as int)),
        decreases n - i,
    {
        let c = s.get_char(i);
        if c == ' ' {
            proof {
                reveal_strlit("\\s");
            }
            r.append("\\s");
        } else {
            let one = s.substring_char(i, i + 1);
            r.append(one);
        }
        proof {
            assert(s@.take(i as int + 1).drop_last() =~= s@.take(i as int));
            assert(s@.take(i as int + 1).last() == c);
            assert(r@ =~= start + spaces_as_whitespace_class(s@.take(i as int + 1)));
        }
        i = i + 1;
    }
    r.append("\\s*");
    proof {
        assert(s@.take(n as int) =~= s@);
    }
    r
}

/// The source of the regular expression for the section header.
pub fn section_header_regex_source(section_name: &Option<String>) -> (r: String)
    ensures
        r@ == section_header_source(*section_name),
{
    match section_name {
        Some(name) => header_regex_source_for(name.as_str()),
        None => header_regex_source_for("Cargo Geiger Safety Report"),
    }
}

/// The pattern `^#+.*` matches exactly the lines that start with `#`.
pub open spec fn any_header_fits() -> bool {
    forall|t: Seq<char>| #[trigger] regex_is_match(any_header_source(), t) == starts_with_hash(t)
}

/// For a default or plain section name, the section header pattern matches
/// only lines that start with `#`, and matches the header of a new
/// section.
pub open spec fn section_header_fits(section_name: Option<String>) -> bool {
    plain_section_name(section_name) ==> (forall|t: Seq<char>|
        #[trigger] regex_is_match(section_header_source(section_name), t) ==> starts_with_hash(t))
        && regex_is_match(section_header_source(section_name), new_section_header(section_name))
}

/// Compiles the regular expression for the section header.
pub fn construct_regex_expression_for_section_header(readme_args: &ReadmeArgs) -> (r: Option<
    LinePattern,
>)
    ensures
        r is Some <==> regex_compiles(section_header_source(readme_args.section_name)),
        r matches Some(p) ==> p@ == section_header_source(readme_args.section_name),
        r is Some ==> section_header_fits(readme_args.section_name),
{
    let source = section_header_regex_source(&readme_args.section_name);
    let r = compile_line_pattern(source.as_str());
    proof {
        if r is Some && plain_section_name(readme_args.section_name) {
            lemma_default_section_name_plain();
            assert(header_source_for(section_name_text(readme_args.section_name)) == source@);
        }
    }
    r
}

/// The text of each line.
pub open spec fn lines_view(lines: Seq<String>) -> Seq<Seq<char>> {
    lines.map_values(|l: String| l@)
}

proof fn lemma_lines_view_push(v: Seq<String>, x: String)
    ensures
        lines_view(v.push(x)) =~= lines_view(v).push(x@),
{
}

proof fn lemma_lines_view_insert(v: Seq<String>, i: int, x: String)
    requires
        0 <= i <= v.len(),
    ensures
        lines_view(v.insert(i, x)) =~= lines_view(v).insert(i, x@),
{
}

proof fn lemma_lines_view_remove(v: Seq<String>, i: int)
    requires
        0 <= i < v.len(),
    ensures
        lines_view(v.remove(i)) =~= lines_view(v).remove(i),
{
}

/// Scans the lines from index `i` on for the safety report section, with
/// `start` the index of the section header found so far (-1 for none): the
/// header is the last line that matches the header pattern before the
/// first other header line after it, which ends the section (-1 when no
/// header line ends it).
pub open spec fn scan_section(
    lines: Seq<Seq<char>>,
    header: Seq<char>,
    i: int,
    start: int,
) -> (int, int)
    decreases lines.len() - i,
{
    if i < 0 || i >= lines.len() {
        (start, -1)
    } else if regex_is_match(header, lines[i]) {
        scan_section(lines, header, i + 1, i)
    } else if start != -1 && regex_is_match(any_header_source(), lines[i]) {
        (start, i)
    } else {
        scan_section(lines, header, i + 1, start)
    }
}

proof fn lemma_scan_section_bounds(
    lines: Seq<Seq<char>>,
    header: Seq<char>,
    i: int,
    start: int,
)
    requires
        0 <= i <= lines.len(),
        -1 <= start < i,
    ensures
        -1 <= scan_section(lines, header, i, start).0 < lines.len(),
        scan_section(lines, header, i, start).1 == -1 || scan_section(lines, header, i, start).0
            < scan_section(lines, header, i, start).1 < lines.len(),
        scan_section(lines, header, i, start).1 != -1 ==> scan_section(lines, header, i, start).0
            != -1,
    decreases lines.len() - i,
{
    if i < lines.len() {
        if regex_is_match(header, lines[i]) {
            lemma_scan_section_bounds(lines, header, i + 1, i);
        } else if start != -1 && regex_is_match(any_header_source(), lines[i]) {
        } else {
            lemma_scan_section_bounds(lines, header, i + 1, start);
        }
    }
}

/// The index of the section header and the index of the header line that
/// ends the section; -1 for either when there is none.
pub fn find_start_and_end_lines_of_safety_report_section(
    readme_args: &ReadmeArgs,
    readme_content: &[String],
) -> (r: (i32, i32))
    requires
        regex_compiles(section_header_source(readme_args.section_name)),
        regex_compiles(any_header_source()),
        readme_content@.len() < i32::MAX,
    ensures
        (r.0 as int, r.1 as int) == scan_section(
            lines_view(readme_content@),
            section_header_source(readme_args.section_name),
            0,
            -1,
        ),
        any_header_fits(),
        section_header_fits(readme_args.section_name),
{
    let ghost lines = lines_view(readme_content@);
    let ghost header = section_header_source(readme_args.section_name);
    let mut start_line_number: i32 = -1;
    let start_line_pattern = match construct_regex_expression_for_section_header(readme_args) {
        Some(p) => p,
        None => {
            return (-1, -1);
        },
    };
    let end_line_pattern = match compile_line_pattern("^#+.*") {
        Some(p) => p,
        None => {
            return (-1, -1);
        },
    };
    assert(any_header_fits());
    let mut line_number: usize = 0;
    while line_number < readme_content.len()
        invariant
            readme_content@.len() < i32::MAX,
            lines == lines_view(readme_content@),
            header == section_header_source(readme_args.section_name),
            start_line_pattern@ == header,
            end_line_pattern@ == any_header_source(),
            any_header_fits(),
            section_header_fits(readme_args.section_name),
            line_number <= readme_content@.len(),
            -1 <= start_line_number < line_number,
            scan_section(lines, header, line_number as int, start_line_number as int)
                == scan_section(lines, header, 0, -1),
        decreases readme_content@.len() - line_number,
    {
        let line = readme_content[line_number].as_str();
        proof {
            assert(lines[line_number as int] == line@);
        }
        if line_matches(&start_line_pattern, line) {
            start_line_number = line_number as i32;
            line_number = line_number + 1;
            continue ;
        }
        if start_line_number != -1 && line_matches(&end_line_pattern, line) {
            return (start_line_number, line_number as i32);
        }
        line_number = line_number + 1;
    }
    (start_line_number, -1)
}


/// The header line of a newly created section.
pub open spec fn new_section_header(section_name: Option<String>) -> Seq<char> {
    "## "@ + section_name_text(section_name)
}

/// The lines of a code block that holds the scan output.
pub open spec fn code_block(scan: Seq<Seq<char>>) -> Seq<Seq<char>> {
    seq!["```"@] + scan + seq!["```"@]
}

/// The README after the update: a missing section is appended at the end,
/// under a level-two header; an existing section keeps its header, whatever
/// its level, and its body up to the next header (or the end) is replaced.
pub open spec fn spec_updated_readme(
    readme: Seq<Seq<char>>,
    section_name: Option<String>,
    scan: Seq<Seq<char>>,
) -> Seq<Seq<char>> {
    let (start, end) = scan_section(readme, section_header_source(section_name), 0, -1);
    if start == -1 {
        readme + seq![new_section_header(section_name)] + code_block(scan)
    } else {
        let end = if end == -1 {
            readme.len() as int
        } else {
            end
        };
        readme.take(start + 1) + code_block(scan) + readme.skip(end)
    }
}

/// Updates the lines of a README with the output of a scan.
pub fn update_readme_content(
    readme_args: &ReadmeArgs,
    readme_content: &mut Vec<String>,
    scan_result: &[String],
)
    requires
        regex_compiles(section_header_source(readme_args.section_name)),
        regex_compiles(any_header_source()),
        old(readme_content)@.len() + scan_result@.len() + 3 < i32::MAX,
    ensures
        lines_view(final(readme_content)@) == spec_updated_readme(
            lines_view(old(readme_content)@),
            readme_args.section_name,
            lines_view(scan_result@),
        ),
        plain_section_name(readme_args.section_name) && (forall|i: int|
            0 <= i < scan_result@.len() ==> !starts_with_hash(#[trigger] scan_result@[i]@))
            ==> spec_updated_readme(
            lines_view(final(readme_content)@),
            readme_args.section_name,
            lines_view(scan_result@),
        ) == lines_view(final(readme_content)@),
{
    let ghost old_lines = lines_view(readme_content@);
    let ghost scan = lines_view(scan_result@);
    let (start_line_number, end_line_number) = find_start_and_end_lines_of_safety_report_section(
        readme_args,
        readme_content.as_slice(),
    );
    proof {
        lemma_scan_section_bounds(old_lines, section_header_source(readme_args.section_name), 0, -1);
    }
    if start_line_number == -1 {
        match &readme_args.section_name {
            Some(section_name) => {
                let mut section_name_string = String::new();
                section_name_string.append("## ");
                section_name_string.append(section_name.as_str());
                proof {
                    lemma_lines_view_push(readme_content@, section_name_string);
                }
                readme_content.push(section_name_string);
            },
            None => {
                let mut header = String::new();
                header.append("## ");
                header.append("Cargo Geiger Safety Report");
                proof {
                    lemma_lines_view_push(readme_content@, header);
                }
                readme_content.push(header);
            },
        }
        let fence = "```".to_owned();
        proof {
            lemma_lines_view_push(readme_content@, fence);
        }
        readme_content.push(fence);
        let mut i: usize = 0;
        let ghost base = lines_view(readme_content@);
        while i < scan_result.len()
            invariant
                i <= scan_result@.len(),
                scan == lines_view(scan_result@),
                scan.len() == scan_result@.len(),
                lines_view(readme_content@) == base + scan.take(i as int),
            decreases scan_result@.len() - i,
        {
            let line = scan_result[i].clone();
            proof {
                assert(line@ == scan[i as int]);
                lemma_lines_view_push(readme_content@, line);
            }
            readme_content.push(line);
            i = i + 1;
            proof {
                assert(lines_view(readme_content@) =~= base + scan.take(i as int));
            }
        }
        let fence = "```".to_owned();
        proof {
            lemma_lines_view_push(readme_content@, fence);
        }
        readme_content.push(fence);
        proof {
            assert(scan.take(scan.len() as int) =~= scan);
            assert(lines_view(readme_content@) =~= spec_updated_readme(
                old_lines,
                readme_args.section_name,
                scan,
            ));
        }
    } else {
        let mut end_line_number = end_line_number;
        if end_line_number == -1 {
            end_line_number = readme_content.len() as i32;
        }
        // Remove the body of the existing section.
        let mut k: i32 = start_line_number + 1;
        proof {
            assert(old_lines.take(start_line_number + 1) + old_lines.skip(k as int) =~= old_lines);
        }
        while k < end_line_number
            invariant
                0 <= start_line_number < end_line_number <= old_lines.len(),
                old_lines.len() < i32::MAX,
                readme_content@.len() == (start_line_number + 1) + (old_lines.len() - k),
                start_line_number + 1 <= k <= end_line_number,
                lines_view(readme_content@) == old_lines.take(start_line_number + 1) + old_lines.skip(
                    k as int,
                ),
            decreases end_line_number - k,
        {
            proof {
                lemma_lines_view_remove(readme_content@, start_line_number + 1);
            }
            readme_content.remove((start_line_number + 1) as usize);
            k = k + 1;
            proof {
                assert(lines_view(readme_content@) =~= old_lines.take(start_line_number + 1)
                    + old_lines.skip(k as int));
            }
        }
        let ghost tail = old_lines.skip(end_line_number as int);
        assert(readme_content@.len() == start_line_number + 1 + tail.len());
        let mut running_scan_line_index: usize = (start_line_number + 1) as usize;
        let fence = "```".to_owned();
        proof {
            lemma_lines_view_insert(readme_content@, running_scan_line_index as int, fence);
        }
        readme_content.insert(running_scan_line_index, fence);
        running_scan_line_index = running_scan_line_index + 1;
        let ghost head = old_lines.take(start_line_number + 1) + seq!["```"@];
        proof {
            assert(lines_view(readme_content@) =~= head + tail);
        }
        let mut i: usize = 0;
        while i < scan_result.len()
            invariant
                i <= scan_result@.len(),
                scan == lines_view(scan_result@),
                scan.len() == scan_result@.len(),
                running_scan_line_index == head.len() + i,
                head.len() + scan.len() + tail.len() < i32::MAX,
                readme_content@.len() == head.len() + i + tail.len(),
                lines_view(readme_content@) == head + scan.take(i as int) + tail,
            decreases scan_result@.len() - i,
        {
            let line = scan_result[i].clone();
            proof {
                assert(line@ == scan[i as int]);
                lemma_lines_view_insert(readme_content@, running_scan_line_index as int, line);
            }
            readme_content.insert(running_scan_line_index, line);
            running_scan_line_index = running_scan_line_index + 1;
            i = i + 1;
            proof {
                assert(lines_view(readme_content@) =~= head + scan.take(i as int) + tail);
            }
        }
        let fence = "```".to_owned();
        proof {
            lemma_lines_view_insert(readme_content@, running_scan_line_index as int, fence);
        }
        readme_content.insert(running_scan_line_index, fence);
        proof {
            assert(scan.take(scan.len() as int) =~= scan);
            assert(lines_view(readme_content@) =~= spec_updated_readme(
                old_lines,
                readme_args.section_name,
                scan,
            ));
        }
    }
    proof {
        if plain_section_name(readme_args.section_name) && (forall|i: int|
            0 <= i < scan_result@.len() ==> !starts_with_hash(#[trigger] scan_result@[i]@)) {
            assert forall|i: int| 0 <= i < scan.len() implies !starts_with_hash(#[trigger] scan[i]) by {
                assert(scan[i] == scan_result@[i]@);
            }
            lemma_update_idempotent(old_lines, readme_args.section_name, scan);
        }
    }
}

/// The search from line `i`, with `st` the header found so far, passes
/// line `k` with `sk` the header found so far, without having ended before.
pub open spec fn reaches(lines: Seq<Seq<char>>, header: Seq<char>, i: int, st: int, k: int, sk: int) -> bool
    decreases k - i,
{
    if i >= k {
        i == k && st == sk
    } else if regex_is_match(header, lines[i]) {
        reaches(lines, header, i + 1, i, k, sk)
    } else if st != -1 && regex_is_match(any_header_source(), lines[i]) {
        false
    } else {
        reaches(lines, header, i + 1, st, k, sk)
    }
}

proof fn lemma_reaches_scan(lines: Seq<Seq<char>>, header: Seq<char>, i: int, st: int, k: int, sk: int)
    requires
        0 <= i,
        k <= lines.len(),
        reaches(lines, header, i, st, k, sk),
    ensures
        scan_section(lines, header, i, st) == scan_section(lines, header, k, sk),
    decreases k - i,
{
    if i < k {
        if regex_is_match(header, lines[i]) {
            lemma_reaches_scan(lines, header, i + 1, i, k, sk);
        } else {
            lemma_reaches_scan(lines, header, i + 1, st, k, sk);
        }
    }
}

proof fn lemma_reaches_prefix(
    l1: Seq<Seq<char>>,
    l2: Seq<Seq<char>>,
    header: Seq<char>,
    i: int,
    st: int,
    k: int,
    sk: int,
)
    requires
        0 <= i,
        k <= l1.len(),
        k <= l2.len(),
        forall|j: int| 0 <= j < k ==> l1[j] == l2[j],
        reaches(l1, header, i, st, k, sk),
    ensures
        reaches(l2, header, i, st, k, sk),
    decreases k - i,
{
    if i < k {
        assert(l1[i] == l2[i]);
        if regex_is_match(header, l1[i]) {
            lemma_reaches_prefix(l1, l2, header, i + 1, i, k, sk);
        } else {
            lemma_reaches_prefix(l1, l2, header, i + 1, st, k, sk);
        }
    }
}

/// The search keeps the header that it was given, or reaches the line
/// after the header that it finds.
proof fn lemma_scan_arrives(lines: Seq<Seq<char>>, header: Seq<char>, i: int, st: int)
    requires
        0 <= i <= lines.len(),
        -1 <= st < i,
    ensures
        scan_section(lines, header, i, st).0 == st || (i <= scan_section(lines, header, i, st).0
            < lines.len() && reaches(
            lines,
            header,
            i,
            st,
            scan_section(lines, header, i, st).0 + 1,
            scan_section(lines, header, i, st).0,
        )),
    decreases lines.len() - i,
{
    if i < lines.len() {
        if regex_is_match(header, lines[i]) {
            lemma_scan_arrives(lines, header, i + 1, i);
            let r = scan_section(lines, header, i + 1, i);
            assert(scan_section(lines, header, i, st) == r);
            if r.0 == i {
                assert(reaches(lines, header, i + 1, i, i + 1, i));
            }
            assert(reaches(lines, header, i, st, r.0 + 1, r.0) == reaches(lines, header, i + 1, i, r.0 + 1, r.0));
        } else if st != -1 && regex_is_match(any_header_source(), lines[i]) {
        } else {
            lemma_scan_arrives(lines, header, i + 1, st);
            let r = scan_section(lines, header, i + 1, st);
            assert(scan_section(lines, header, i, st) == r);
            if r.0 != st {
                assert(reaches(lines, header, i, st, r.0 + 1, r.0) == reaches(lines, header, i + 1, st, r.0 + 1, r.0));
            }
        }
    }
}

/// Where the search finds no header, no line matches the header pattern.
proof fn lemma_scan_no_start(lines: Seq<Seq<char>>, header: Seq<char>, i: int)
    requires
        0 <= i <= lines.len(),
        scan_section(lines, header, i, -1).0 == -1,
    ensures
        forall|j: int| i <= j < lines.len() ==> !regex_is_match(header, #[trigger] lines[j]),
    decreases lines.len() - i,
{
    if i < lines.len() {
        if regex_is_match(header, lines[i]) {
            lemma_scan_arrives(lines, header, i + 1, i);
        } else {
            lemma_scan_no_start(lines, header, i + 1);
        }
    }
}

/// Where the search ends the section it was given, the ending line is a
/// header line that does not match the section header pattern.
proof fn lemma_scan_end(lines: Seq<Seq<char>>, header: Seq<char>, i: int, st: int)
    requires
        0 <= i <= lines.len(),
        0 <= st < i,
        scan_section(lines, header, i, st).0 == st,
        scan_section(lines, header, i, st).1 != -1,
    ensures
        i <= scan_section(lines, header, i, st).1 < lines.len(),
        !regex_is_match(header, lines[scan_section(lines, header, i, st).1]),
        regex_is_match(any_header_source(), lines[scan_section(lines, header, i, st).1]),
    decreases lines.len() - i,
{
    if i < lines.len() {
        if regex_is_match(header, lines[i]) {
            lemma_scan_arrives(lines, header, i + 1, i);
        } else if st != -1 && regex_is_match(any_header_source(), lines[i]) {
        } else {
            lemma_scan_end(lines, header, i + 1, st);
        }
    }
}

/// Lines that match neither pattern are passed over.
proof fn lemma_reaches_over(lines: Seq<Seq<char>>, header: Seq<char>, i: int, m: int, st: int)
    requires
        0 <= i <= m <= lines.len(),
        forall|j: int|
            i <= j < m ==> !regex_is_match(header, #[trigger] lines[j]) && !regex_is_match(
                any_header_source(),
                lines[j],
            ),
    ensures
        reaches(lines, header, i, st, m, st),
    decreases m - i,
{
    if i < m {
        lemma_reaches_over(lines, header, i + 1, m, st);
    }
}

/// Lines that do not match the header pattern are passed over while no
/// header has been found.
proof fn lemma_reaches_no_header(lines: Seq<Seq<char>>, header: Seq<char>, i: int, m: int)
    requires
        0 <= i <= m <= lines.len(),
        forall|j: int| i <= j < m ==> !regex_is_match(header, #[trigger] lines[j]),
    ensures
        reaches(lines, header, i, -1, m, -1),
    decreases m - i,
{
    if i < m {
        lemma_reaches_no_header(lines, header, i + 1, m);
    }
}

/// Updating a README twice with the same scan output gives what updating
/// it once gives, where the header patterns match only lines that start
/// with `#`, the section header pattern matches the header of a new
/// section, and no line of the output starts with `#`.
proof fn lemma_update_idempotent(readme: Seq<Seq<char>>, section_name: Option<String>, scan: Seq<Seq<char>>)
    requires
        forall|t: Seq<char>|
            #[trigger] regex_is_match(section_header_source(section_name), t) ==> starts_with_hash(t),
        forall|t: Seq<char>| #[trigger] regex_is_match(any_header_source(), t) ==> starts_with_hash(t),
        regex_is_match(section_header_source(section_name), new_section_header(section_name)),
        forall|i: int| 0 <= i < scan.len() ==> !starts_with_hash(#[trigger] scan[i]),
    ensures
        spec_updated_readme(spec_updated_readme(readme, section_name, scan), section_name, scan)
            == spec_updated_readme(readme, section_name, scan),
{
    let h = section_header_source(section_name);
    let b = code_block(scan);
    reveal_strlit("```");
    assert(forall|j: int| 0 <= j < b.len() ==> !starts_with_hash(#[trigger] b[j])) by {
        assert forall|j: int| 0 <= j < b.len() implies !starts_with_hash(#[trigger] b[j]) by {
            if j == 0 || j == b.len() - 1 {
                assert(b[j] == "```"@);
            } else {
                assert(b[j] == scan[j - 1]);
            }
        }
    }
    let (s, e) = scan_section(readme, h, 0, -1);
    lemma_scan_section_bounds(readme, h, 0, -1);
    let r1 = spec_updated_readme(readme, section_name, scan);
    if s == -1 {
        let n = readme.len() as int;
        assert(r1 == readme + seq![new_section_header(section_name)] + b);
        lemma_scan_no_start(readme, h, 0);
        assert forall|j: int| 0 <= j < n implies !regex_is_match(h, #[trigger] r1[j]) by {
            assert(r1[j] == readme[j]);
        }
        lemma_reaches_no_header(r1, h, 0, n);
        lemma_reaches_scan(r1, h, 0, -1, n, -1);
        assert(r1[n] == new_section_header(section_name));
        assert(scan_section(r1, h, n, -1) == scan_section(r1, h, n + 1, n));
        assert forall|j: int| n + 1 <= j < r1.len() implies !regex_is_match(h, #[trigger] r1[j])
            && !regex_is_match(any_header_source(), r1[j]) by {
            assert(r1[j] == b[j - n - 1]);
        }
        lemma_reaches_over(r1, h, n + 1, r1.len() as int, n);
        lemma_reaches_scan(r1, h, n + 1, n, r1.len() as int, n);
        assert(r1.take(n + 1) + b + r1.skip(r1.len() as int) =~= r1);
    } else {
        let end = if e == -1 {
            readme.len() as int
        } else {
            e
        };
        assert(r1 == readme.take(s + 1) + b + readme.skip(end));
        lemma_scan_arrives(readme, h, 0, -1);
        assert forall|j: int| 0 <= j < s + 1 implies readme[j] == r1[j] by {}
        lemma_reaches_prefix(readme, r1, h, 0, -1, s + 1, s);
        lemma_reaches_scan(r1, h, 0, -1, s + 1, s);
        let m = s + 1 + b.len();
        assert forall|j: int| s + 1 <= j < m implies !regex_is_match(h, #[trigger] r1[j])
            && !regex_is_match(any_header_source(), r1[j]) by {
            assert(r1[j] == b[j - s - 1]);
        }
        lemma_reaches_over(r1, h, s + 1, m, s);
        lemma_reaches_scan(r1, h, s + 1, s, m, s);
        if e == -1 {
            assert(r1.len() == m);
            assert(r1.take(s + 1) + b + r1.skip(m) =~= r1);
        } else {
            lemma_reaches_scan(readme, h, 0, -1, s + 1, s);
            lemma_scan_end(readme, h, s + 1, s);
            assert(r1[m] == readme[e]);
            assert(scan_section(r1, h, m, s) == (s, m));
            assert(r1.take(s + 1) + b + r1.skip(m) =~= r1);
        }
    }
}

/// The section name is the default one, or a name of ASCII letters,
/// digits and spaces.
pub open spec fn plain_section_name(section_name: Option<String>) -> bool {
    match section_name {
        Some(name) => plain_name(name@),
        None => true,
    }
}

proof fn lemma_default_section_name_plain()
    ensures
        plain_name(default_section_name()),
{
    reveal_strlit("Cargo Geiger Safety Report");
    let n = default_section_name();
    assert(n =~= seq![
        'C', 'a', 'r', 'g', 'o', ' ', 'G', 'e', 'i', 'g', 'e', 'r', ' ', 'S', 'a', 'f', 'e', 't', 'y', ' ',
        'R', 'e', 'p', 'o', 'r', 't',
    ]);
}

/// Updates the lines of a README with the output of a scan, when the
/// regular expressions for the section header compile; otherwise leaves
/// the lines unchanged and returns `false`.
pub fn update_readme_content_checked(
    readme_args: &ReadmeArgs,
    readme_content: &mut Vec<String>,
    scan_result: &[String],
) -> (updated: bool)
    requires
        old(readme_content)@.len() + scan_result@.len() + 3 < i32::MAX,
    ensures
        updated == (regex_compiles(section_header_source(readme_args.section_name))
            && regex_compiles(any_header_source())),
        updated ==> lines_view(final(readme_content)@) == spec_updated_readme(
            lines_view(old(readme_content)@),
            readme_args.section_name,
            lines_view(scan_result@),
        ),
        !updated ==> final(readme_content)@ == old(readme_content)@,
        updated && plain_section_name(readme_args.section_name) && (forall|i: int|
            0 <= i < scan_result@.len() ==> !starts_with_hash(#[trigger] scan_result@[i]@))
            ==> spec_updated_readme(
            lines_view(final(readme_content)@),
            readme_args.section_name,
            lines_view(scan_result@),
        ) == lines_view(final(readme_content)@),
{
    let source = section_header_regex_source(&readme_args.section_name);
    let header_ok = compile_line_pattern(source.as_str()).is_some();
    let any_ok = compile_line_pattern("^#+.*").is_some();
    if header_ok && any_ok {
        update_readme_content(readme_args, readme_content, scan_result);
        true
    } else {
        false
    }
}

} // verus!
