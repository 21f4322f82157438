use vstd::prelude::*;
use crate::errors::ExtractError;
use crate::mp3url::strs_view;
use crate::text::{find_substring, spec_find_from};
use crate::util::{matching_bracket_substring, spec_matching_bracket};

verus! {

/// One lesson link found on the dashboard page, with its position among
/// the kept links.
#[derive(Clone, Debug, PartialEq, Eq)]
pub struct Lesson {
    pub no: usize,
    pub link: String,
}

/// One part of a lesson: the URL of its master playlist.
#[derive(Clone, Debug, PartialEq, Eq)]
pub struct LessonPart {
    pub url: String,
}

pub open spec fn parts_view(v: Seq<LessonPart>) -> Seq<Seq<char>> {
    v.map_values(|p: LessonPart| p.url@)
}

pub open spec fn lessons_view(v: Seq<Lesson>) -> Seq<(int, Seq<char>)> {
    v.map_values(|l: Lesson| (l.no as int, l.link@))
}

/// What the URL-capturing pattern finds in the video-list text.
pub uninterp spec fn spec_lesson_urls(s: Seq<char>) -> Seq<Seq<char>>;

/// Relies on regex::Regex::captures_iter with the fixed pattern
/// `src\s*:\s*["'](https://[^"']+)["']\s*,`: the first capture group of
/// each successive non-overlapping match, in page order; the result is a
/// function of the text alone.
#[verifier::external_body]
fn lesson_url_captures(s: &str) -> (r: Vec<String>)
    ensures
        strs_view(r@) == spec_lesson_urls(s@),
{
    let re = regex::Regex::new(r#"src\s*:\s*["'](https://[^"']+)["']\s*,"#).unwrap();
    re.captures_iter(s).map(|c| c[1].to_string()).collect()
}

/// Finds the video-list array on a lesson page (it follows the first
/// occurrence of the list marker) and extracts each entry's playlist URL,
/// in page order.
#[verifier::loop_isolation(false)]
pub fn parse_lesson(page: &str) -> (r: Result<Vec<LessonPart>, ExtractError>)
    ensures
        match spec_find_from(page@, "allVideos"@, 0) {
            None => r == Err::<Vec<LessonPart>, ExtractError>(ExtractError::VideoListNotFound),
            Some(i) => match spec_matching_bracket(page@.skip(i), '[') {
                Err(be) => r == Err::<Vec<LessonPart>, ExtractError>(
                    ExtractError::BracketSearch(be),
                ),
                Ok(list) => match r {
                    Ok(parts) => parts_view(parts@) == spec_lesson_urls(list),
                    Err(_) => false,
                },
            },
        },
{
    let i = match find_substring(page, "allVideos") {
        None => {
            return Err(ExtractError::VideoListNotFound);
        },
        Some(i) => i,
    };
    let narrow = page.substring_char(i, page.unicode_len());
    proof {
        assert(narrow@ =~= page@.skip(i as int));
    }
    let list = match matching_bracket_substring(narrow, '[') {
        Err(e) => {
            return Err(ExtractError::BracketSearch(e));
        },
        Ok(l) => l,
    };
    let urls = lesson_url_captures(list.as_str());
    let ghost target = spec_lesson_urls(list@);
    let mut parts: Vec<LessonPart> = Vec::new();
    proof {
        assert(parts_view(parts@) =~= target.take(0));
    }
    let mut k: usize = 0;
    let n = urls.len();
    while k < n
        invariant
            k <= n,
            n == urls@.len(),
            parts_view(parts@) == target.take(k as int),
        decreases n - k,
    {
        parts.push(LessonPart { url: urls[k].clone() });
        proof {
            assert(target[k as int] == urls@[k as int]@);
            assert(parts_view(parts@) =~= target.take(k + 1));
        }
        k = k + 1;
    }
    proof {
        assert(target.take(target.len() as int) =~= target);
    }
    Ok(parts)
}

/// The dashboard links that point at a lesson page, numbered by their
/// position among the kept links.
pub open spec fn spec_lesson_links(links: Seq<Seq<char>>, i: int, no: int) -> Seq<(int, Seq<char>)>
    decreases links.len() - i,
{
    if i < 0 || i >= links.len() {
        Seq::empty()
    } else if "watchLesson.php"@.is_prefix_of(links[i]) {
        Seq::empty().push((no, links[i])) + spec_lesson_links(links, i + 1, no + 1)
    } else {
        spec_lesson_links(links, i + 1, no)
    }
}

/// Keeps the dashboard links that open a lesson, in page order, each
/// numbered by its position among the kept links.
#[verifier::loop_isolation(false)]
pub fn filter_lesson_links(links: Vec<String>) -> (r: Vec<Lesson>)
    ensures
        lessons_view(r@) == spec_lesson_links(strs_view(links@), 0, 0),
{
    let ghost lv = strs_view(links@);
    let mut out: Vec<Lesson> = Vec::new();
    let mut no: usize = 0;
    proof {
        assert(lessons_view(out@) =~= Seq::empty());
    }
    let mut i: usize = 0;
    while i < links.len()
        invariant
            i <= links@.len(),
            no <= i,
            lessons_view(out@) + spec_lesson_links(lv, i as int, no as int) == spec_lesson_links(
                lv,
                0,
                0,
            ),
        decreases links@.len() - i,
    {
        let ghost pre = lessons_view(out@);
        proof {
            assert(lv[i as int] == links@[i as int]@);
        }
        if crate::text::str_has_prefix(links[i].as_str(), "watchLesson.php") {
            out.push(Lesson { no, link: links[i].clone() });
            proof {
                assert(lessons_view(out@) =~= pre.push((no as int, lv[i as int])));
                assert(pre.push((no as int, lv[i as int])) + spec_lesson_links(
                    lv,
                    i + 1,
                    no + 1 as int,
                ) =~= pre + spec_lesson_links(lv, i as int, no as int));
            }
            no = no + 1;
        }
        i = i + 1;
    }
    out
}

} // verus!
