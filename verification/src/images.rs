//! The catalogue of images: which images belong to a board, which of them
//! pass the user's filters, and in what order they are shown.

use crate::order::comes_first;
use crate::order::is_ordering;
use crate::order::is_stable_order;
use crate::order::stable_order;
use crate::text::chars_of;
use crate::text::compare_text;
use crate::text::contains_text;
use crate::text::first_index;
use crate::text::has_prefix;
use crate::text::has_text;
use crate::text::lemma_first_index;
use crate::text::lemma_text_order_mirror;
use crate::text::lemma_text_order_transitive;
use crate::text::lowercase_of;
use crate::text::parse_u64;
use crate::text::parsed_u64;
use crate::text::replace_all;
use crate::text::replaced;
use crate::text::same_text;
use crate::text::starts_with;
use crate::text::string_of;
use crate::text::text_order;
use crate::text::uppercase_of;
use crate::text::TextOrder;
use vstd::prelude::*;

verus! {

/// An image as the catalogue lists it.  The catalogue gives every value as
/// a text, and any of them may be missing.
#[derive(Debug)]
pub struct ArmbianImage {
    pub board_slug: Option<String>,
    pub board_name: Option<String>,
    pub board_vendor: Option<String>,
    pub company_name: Option<String>,
    pub company_logo: Option<String>,
    pub board_support: Option<String>,
    pub platinum_support: Option<String>,
    pub platinum_support_until: Option<String>,
    pub armbian_version: Option<String>,
    pub distro_release: Option<String>,
    pub kernel_branch: Option<String>,
    pub image_variant: Option<String>,
    pub preinstalled_application: Option<String>,
    pub promoted: Option<String>,
    pub file_url: Option<String>,
    pub file_url_sha: Option<String>,
    pub file_extension: Option<String>,
    pub file_size: Option<String>,
    pub download_repository: Option<String>,
}

/// An image as it is shown for a board.
#[derive(Debug)]
pub struct ImageInfo {
    pub armbian_version: String,
    pub distro_release: String,
    pub kernel_branch: String,
    pub image_variant: String,
    pub preinstalled_application: String,
    pub promoted: bool,
    pub file_url: String,
    pub file_url_sha: Option<String>,
    pub file_size: u64,
    pub download_repository: String,
}

/// The text, or the empty text if there is none.
pub open spec fn or_empty(text: Option<String>) -> Seq<char> {
    match text {
        Some(t) => t@,
        None => Seq::empty(),
    }
}

/// A slug in the form in which slugs are compared: in lower case, with `-`
/// for `_`.
pub open spec fn normalized_slug(slug: Seq<char>) -> Seq<char> {
    replaced(lowercase_of(slug), "_"@, "-"@)
}

/// The slug in the form in which slugs are compared.
pub fn normalize_slug(slug: &str) -> (normalized: String)
    ensures
        normalized@ == normalized_slug(slug@),
{
    let lowered = slug.to_lowercase();
    replace_all(lowered.as_str(), "_", "-")
}

/// Is a file with this extension an image, and not a signature, a torrent
/// or a digest of one?  Its extension, in lower case, begins with `img` and
/// holds none of `asc`, `torrent`, `sha`.
pub fn is_valid_image_extension(ext: &str) -> (valid: bool)
    ensures
        valid == (starts_with(lowercase_of(ext@), "img"@) && !contains_text(
            lowercase_of(ext@),
            "asc"@,
        ) && !contains_text(lowercase_of(ext@), "torrent"@) && !contains_text(
            lowercase_of(ext@),
            "sha"@,
        )),
{
    let lowered = ext.to_lowercase();
    let chars = chars_of(lowered.as_str());
    has_prefix(&chars, &chars_of("img")) && !has_text(&chars, &chars_of("asc")) && !has_text(
        &chars,
        &chars_of("torrent"),
    ) && !has_text(&chars, &chars_of("sha"))
}

/// Is the entry of the catalogue an image that is offered?  It is if its
/// file is an image and it is not built for the cloud.
pub fn is_listed_image(image: &ArmbianImage) -> (listed: bool)
    ensures
        listed == match image.file_extension {
            Some(ext) => {
                &&& starts_with(lowercase_of(ext@), "img"@)
                &&& !contains_text(lowercase_of(ext@), "asc"@)
                &&& !contains_text(lowercase_of(ext@), "torrent"@)
                &&& !contains_text(lowercase_of(ext@), "sha"@)
                &&& or_empty(image.kernel_branch) != "cloud"@
            },
            None => false,
        },
{
    match &image.file_extension {
        Some(ext) => {
            if !is_valid_image_extension(ext.as_str()) {
                return false;
            }
            let kernel: &str = match &image.kernel_branch {
                Some(kernel) => kernel.as_str(),
                None => {
                    proof {
                        reveal_strlit("");
                        assert(""@ =~= Seq::<char>::empty());
                    }
                    ""
                },
            };
            !same_text(kernel, "cloud")
        },
        None => false,
    }
}

/// A word with its first letter in upper case.
pub open spec fn capitalized_word(word: Seq<char>) -> Seq<char> {
    if word.len() == 0 {
        Seq::empty()
    } else {
        uppercase_of(word.take(1)) + word.skip(1)
    }
}

/// A vendor's identifier with every word between its hyphens capitalized.
pub open spec fn capitalized_words(vendor: Seq<char>) -> Seq<char>
    decreases vendor.len(),
{
    let end = first_index(vendor, '-');
    if end < 0 || end >= vendor.len() {
        capitalized_word(vendor)
    } else {
        capitalized_word(vendor.take(end)) + seq!['-'] + capitalized_words(vendor.skip(end + 1))
    }
}

/// The name under which a vendor is shown when the catalogue gives none:
/// its identifier with every word capitalized, as in `Intel-Amd` for
/// `intel-amd`.
pub fn capitalize_vendor(vendor: &str) -> (shown: String)
    ensures
        shown@ == if vendor@ == "other"@ {
            "Other"@
        } else {
            capitalized_words(vendor@)
        },
{
    if same_text(vendor, "other") {
        return "Other".to_owned();
    }
    let chars = chars_of(vendor);
    let mut shown = String::new();
    let mut start: usize = 0;
    let mut done: bool = false;
    proof {
        assert(chars@.skip(0) =~= chars@);
        assert(shown@ + capitalized_words(chars@) =~= capitalized_words(chars@));
    }
    while !done
        invariant
            0 <= start <= chars.len(),
            chars@ == vendor@,
            !done ==> capitalized_words(vendor@) == shown@ + capitalized_words(
                chars@.skip(start as int),
            ),
            done ==> shown@ == capitalized_words(vendor@),
        decreases (if done { 0int } else { 1int }), chars.len() - start,
    {
        let ghost rest = chars@.skip(start as int);
        let ghost before = shown@;
        let mut end: usize = start;
        while end < chars.len() && chars[end] != '-'
            invariant
                start <= end <= chars.len(),
                forall|j: int| start <= j < end ==> chars[j] != '-',
            decreases chars.len() - end,
        {
            end += 1;
        }
        proof {
            assert forall|j: int| 0 <= j < end - start implies rest[j] != '-' by {
                assert(rest[j] == chars[start + j]);
            }
            if end < chars.len() {
                assert(rest[end - start] == chars[end as int]);
            }
            lemma_first_index(rest, '-', end - start);
        }
        let ghost word = chars@.subrange(start as int, end as int);
        if end > start {
            let first = string_of(&chars, start, start + 1);
            let upper = first.as_str().to_uppercase();
            shown.append(upper.as_str());
            let tail = string_of(&chars, start + 1, end);
            shown.append(tail.as_str());
            proof {
                assert(first@ =~= word.take(1));
                assert(tail@ =~= word.skip(1));
            }
        }
        proof {
            assert(shown@ =~= before + capitalized_word(word));
        }
        if end == chars.len() {
            proof {
                assert(word =~= rest);
            }
            done = true;
        } else {
            shown.push('-');
            proof {
                assert(rest.take(end - start) =~= word);
                assert(rest.skip(end - start + 1) =~= chars@.skip(end + 1));
                assert(before + (capitalized_word(word) + seq!['-'] + capitalized_words(
                    rest.skip(end - start + 1),
                )) =~= shown@ + capitalized_words(chars@.skip(end + 1)));
            }
            start = end + 1;
        }
    }
    shown
}

/// What the user filters the images of a board by.
pub struct Filters {
    /// The board, as a normalized slug.
    pub board: Seq<char>,
    /// The preinstalled application, where `__EMPTY__` asks for images
    /// without one.
    pub preapp: Option<Seq<char>>,
    /// The kernel branch.
    pub kernel: Option<Seq<char>>,
    /// The variant of the image.
    pub variant: Option<Seq<char>>,
    /// Only images from the stable repository.
    pub stable_only: bool,
}

/// The view of a filter that may be missing.
pub open spec fn filter_view(filter: Option<&str>) -> Option<Seq<char>> {
    match filter {
        Some(text) => Some(text@),
        None => None,
    }
}

/// Does the image belong to the board and pass the filters?  A value that
/// the catalogue does not give counts as empty.
pub open spec fn passes(image: ArmbianImage, filters: Filters) -> bool {
    &&& normalized_slug(or_empty(image.board_slug)) == filters.board
    &&& match filters.preapp {
        Some(preapp) => if preapp == "__EMPTY__"@ {
            or_empty(image.preinstalled_application).len() == 0
        } else {
            or_empty(image.preinstalled_application) == preapp
        },
        None => true,
    }
    &&& filters.stable_only ==> or_empty(image.download_repository) == "archive"@
    &&& match filters.kernel {
        Some(kernel) => or_empty(image.kernel_branch) == kernel,
        None => true,
    }
    &&& match filters.variant {
        Some(variant) => or_empty(image.image_variant) == variant,
        None => true,
    }
}

/// Is the image one that the catalogue promotes?
pub open spec fn is_promoted(image: ArmbianImage) -> bool {
    image.promoted is Some && image.promoted->0@ == "true"@
}

/// The size that the catalogue gives for the image, 0 if it gives none
/// that is a number.
pub open spec fn size_of(image: ArmbianImage) -> u64 {
    match image.file_size {
        Some(text) => match parsed_u64(text@) {
            Some(n) => n,
            None => 0,
        },
        None => 0,
    }
}

/// Does `info` show the image?
pub open spec fn shows(info: ImageInfo, image: ArmbianImage) -> bool {
    &&& info.armbian_version@ == or_empty(image.armbian_version)
    &&& info.distro_release@ == or_empty(image.distro_release)
    &&& info.kernel_branch@ == or_empty(image.kernel_branch)
    &&& info.image_variant@ == or_empty(image.image_variant)
    &&& info.preinstalled_application@ == or_empty(image.preinstalled_application)
    &&& info.promoted == is_promoted(image)
    &&& info.file_url@ == or_empty(image.file_url)
    &&& info.file_url_sha == image.file_url_sha
    &&& info.file_size == size_of(image)
    &&& info.download_repository@ == or_empty(image.download_repository)
}

/// Is image `a` shown before image `b` for what they are: is it promoted
/// while `b` is not, or is its version the later one where both are
/// promoted or neither is?
pub open spec fn shown_first(images: Seq<ArmbianImage>, a: int, b: int) -> bool {
    (is_promoted(images[a]) && !is_promoted(images[b])) || (is_promoted(images[a]) == is_promoted(
        images[b],
    ) && text_order(or_empty(images[b].armbian_version), or_empty(images[a].armbian_version))
        == TextOrder::Before)
}

/// Is image `a` shown before image `b`?  Of two images that stand equal
/// the one that the catalogue lists first is shown first.
pub open spec fn precedes(images: Seq<ArmbianImage>, a: int, b: int) -> bool {
    shown_first(images, a, b) || (!shown_first(images, b, a) && a < b)
}

/// `order` lists the images that pass the filters, each once, in the order
/// in which they are shown.
pub open spec fn is_shown_order(images: Seq<ArmbianImage>, filters: Filters, order: Seq<usize>) -> bool {
    &&& forall|k: int|
        0 <= k < order.len() ==> (#[trigger] order[k]) < images.len() && passes(
            images[order[k] as int],
            filters,
        )
    &&& forall|a: int, b: int|
        0 <= a < b < order.len() ==> precedes(images, #[trigger] order[a] as int, #[trigger] order[b] as int)
    &&& forall|i: int|
        0 <= i < images.len() && passes(#[trigger] images[i], filters) ==> exists|k: int|
            0 <= k < order.len() && order[k] == i
}

/// Of two images at most one is shown before the other for what they
/// are.
pub proof fn lemma_shown_first_one_way(images: Seq<ArmbianImage>, a: int, b: int)
    ensures
        !(shown_first(images, a, b) && shown_first(images, b, a)),
{
    lemma_text_order_mirror(
        or_empty(images[a].armbian_version),
        or_empty(images[b].armbian_version),
    );
}

/// What stands before an image stands before everything that the image
/// does not stand behind.
pub proof fn lemma_shown_first_chain(images: Seq<ArmbianImage>, s: int, x: int, y: int)
    requires
        shown_first(images, s, x),
        !shown_first(images, y, x),
    ensures
        shown_first(images, s, y),
{
    let vs = or_empty(images[s].armbian_version);
    let vx = or_empty(images[x].armbian_version);
    let vy = or_empty(images[y].armbian_version);
    lemma_text_order_mirror(vx, vy);
    lemma_text_order_mirror(vx, vs);
    lemma_text_order_mirror(vy, vs);
    if is_promoted(images[s]) == is_promoted(images[x]) && is_promoted(images[x]) == is_promoted(
        images[y],
    ) {
        // vx < vs, and not vx < vy, so vy <= vx < vs
        lemma_text_order_transitive(vy, vx, vs);
    }
}

fn text_of(text: &Option<String>) -> (s: &str)
    ensures
        s@ == or_empty(*text),
{
    match text {
        Some(t) => t.as_str(),
        None => {
            proof {
                reveal_strlit("");
                assert(""@ =~= Seq::<char>::empty());
            }
            ""
        },
    }
}

fn promoted(image: &ArmbianImage) -> (p: bool)
    ensures
        p == is_promoted(*image),
{
    match &image.promoted {
        Some(text) => same_text(text.as_str(), "true"),
        None => false,
    }
}

fn is_shown_first(images: &Vec<ArmbianImage>, a: usize, b: usize) -> (first: bool)
    requires
        a < images.len(),
        b < images.len(),
    ensures
        first == shown_first(images@, a as int, b as int),
{
    let pa = promoted(&images[a]);
    let pb = promoted(&images[b]);
    if pa && !pb {
        true
    } else if pa != pb {
        false
    } else {
        match compare_text(text_of(&images[b].armbian_version), text_of(&images[a].armbian_version)) {
            TextOrder::Before => true,
            _ => false,
        }
    }
}

fn matches_filter(value: &Option<String>, filter: Option<&str>) -> (matches: bool)
    ensures
        matches == match filter_view(filter) {
            Some(f) => or_empty(*value) == f,
            None => true,
        },
{
    match filter {
        Some(f) => same_text(text_of(value), f),
        None => true,
    }
}

fn passes_filters(
    image: &ArmbianImage,
    board: &str,
    preapp_filter: Option<&str>,
    kernel_filter: Option<&str>,
    variant_filter: Option<&str>,
    stable_only: bool,
) -> (passing: bool)
    ensures
        passing == passes(
            *image,
            Filters {
                board: board@,
                preapp: filter_view(preapp_filter),
                kernel: filter_view(kernel_filter),
                variant: filter_view(variant_filter),
                stable_only,
            },
        ),
{
    let slug = normalize_slug(text_of(&image.board_slug));
    if !same_text(slug.as_str(), board) {
        return false;
    }
    match preapp_filter {
        Some(filter) => {
            let preapp = text_of(&image.preinstalled_application);
            if same_text(filter, crate::config::images::EMPTY_FILTER) {
                if preapp.unicode_len() != 0 {
                    return false;
                }
            } else if !same_text(preapp, filter) {
                return false;
            }
        },
        None => {},
    }
    if stable_only && !same_text(
        text_of(&image.download_repository),
        crate::config::images::STABLE_REPO,
    ) {
        return false;
    }
    matches_filter(&image.kernel_branch, kernel_filter) && matches_filter(
        &image.image_variant,
        variant_filter,
    )
}

fn owned(text: &Option<String>) -> (s: String)
    ensures
        s@ == or_empty(*text),
{
    match text {
        Some(t) => t.clone(),
        None => String::new(),
    }
}

fn info_of(image: &ArmbianImage) -> (info: ImageInfo)
    ensures
        shows(info, *image),
{
    let file_size: u64 = match &image.file_size {
        Some(text) => {
            let digits = chars_of(text.as_str());
            proof {
                assert(digits@.skip(0) =~= text@);
            }
            match parse_u64(&digits, 0) {
                Some(n) => n,
                None => 0,
            }
        },
        None => 0,
    };
    ImageInfo {
        armbian_version: owned(&image.armbian_version),
        distro_release: owned(&image.distro_release),
        kernel_branch: owned(&image.kernel_branch),
        image_variant: owned(&image.image_variant),
        preinstalled_application: owned(&image.preinstalled_application),
        promoted: promoted(image),
        file_url: owned(&image.file_url),
        file_url_sha: image.file_url_sha.clone(),
        file_size,
        download_repository: owned(&image.download_repository),
    }
}

/// The order in which the images at the positions `selected` are shown.
pub open spec fn image_ordering(images: Seq<ArmbianImage>, selected: Seq<usize>) -> spec_fn(
    int,
    int,
) -> bool {
    |a: int, b: int| shown_first(images, selected[a] as int, selected[b] as int)
}

/// The order in which images are shown is an order.
pub proof fn lemma_shown_first_is_ordering(images: Seq<ArmbianImage>, selected: Seq<usize>)
    ensures
        is_ordering(image_ordering(images, selected), selected.len() as int),
{
    let first = image_ordering(images, selected);
    assert forall|a: int, b: int|
        0 <= a < selected.len() && 0 <= b < selected.len() implies !(#[trigger] first(a, b)
        && first(b, a)) by {
        lemma_shown_first_one_way(images, selected[a] as int, selected[b] as int);
    }
    assert forall|s: int, x: int, y: int|
        0 <= s < selected.len() && 0 <= x < selected.len() && 0 <= y < selected.len()
            && #[trigger] first(s, x) && !#[trigger] first(y, x) implies first(s, y) by {
        lemma_shown_first_chain(images, selected[s] as int, selected[x] as int, selected[y] as int);
    }
}

/// The positions of the images that belong to the board and pass the
/// filters, in the order in which they are shown: promoted images first,
/// then later versions before earlier ones.
pub fn shown_order(
    images: &Vec<ArmbianImage>,
    board_slug: &str,
    preapp_filter: Option<&str>,
    kernel_filter: Option<&str>,
    variant_filter: Option<&str>,
    stable_only: bool,
) -> (order: Vec<usize>)
    ensures
        is_shown_order(
            images@,
            Filters {
                board: normalized_slug(board_slug@),
                preapp: filter_view(preapp_filter),
                kernel: filter_view(kernel_filter),
                variant: filter_view(variant_filter),
                stable_only,
            },
            order@,
        ),
{
    let board = normalize_slug(board_slug);
    let ghost filters = Filters {
        board: normalized_slug(board_slug@),
        preapp: filter_view(preapp_filter),
        kernel: filter_view(kernel_filter),
        variant: filter_view(variant_filter),
        stable_only,
    };
    let mut selected: Vec<usize> = Vec::new();
    let mut i: usize = 0;
    while i < images.len()
        invariant
            0 <= i <= images.len(),
            board@ == filters.board,
            filters.preapp == filter_view(preapp_filter),
            filters.kernel == filter_view(kernel_filter),
            filters.variant == filter_view(variant_filter),
            filters.stable_only == stable_only,
            forall|k: int|
                0 <= k < selected.len() ==> (#[trigger] selected[k]) < i && passes(
                    images[selected[k] as int],
                    filters,
                ),
            forall|a: int, b: int|
                0 <= a < b < selected.len() ==> (#[trigger] selected[a]) < (#[trigger] selected[b]),
            forall|j: int|
                0 <= j < i && passes(#[trigger] images[j], filters) ==> exists|k: int|
                    0 <= k < selected.len() && selected[k] == j,
        decreases images.len() - i,
    {
        if passes_filters(
            &images[i],
            board.as_str(),
            preapp_filter,
            kernel_filter,
            variant_filter,
            stable_only,
        ) {
            let ghost before = selected@;
            selected.push(i);
            proof {
                assert forall|j: int|
                    0 <= j < i + 1 && passes(#[trigger] images[j], filters) implies exists|k: int|
                    0 <= k < selected.len() && selected[k] == j by {
                    if j < i {
                        let k = choose|k: int| 0 <= k < before.len() && before[k] == j;
                        assert(selected[k] == j);
                    } else {
                        assert(selected[before.len() as int] == j);
                    }
                }
            }
        }
        i += 1;
    }
    let ghost first = image_ordering(images@, selected@);
    proof {
        lemma_shown_first_is_ordering(images@, selected@);
    }
    let goes_first = |a: usize, b: usize| -> (r: bool)
        requires
            a < selected.len(),
            b < selected.len(),
            forall|k: int| 0 <= k < selected.len() ==> (#[trigger] selected[k]) < images.len(),
        ensures
            r == shown_first(images@, selected[a as int] as int, selected[b as int] as int),
        { is_shown_first(images, selected[a], selected[b]) };
    let places = stable_order(selected.len(), goes_first, Ghost(first));
    let mut order: Vec<usize> = Vec::new();
    let mut k: usize = 0;
    while k < places.len()
        invariant
            0 <= k <= places.len(),
            forall|j: int| 0 <= j < places.len() ==> (#[trigger] places[j]) < selected.len(),
            order.len() == k,
            forall|j: int| 0 <= j < k ==> (#[trigger] order[j]) == selected[places[j] as int],
        decreases places.len() - k,
    {
        order.push(selected[places[k]]);
        k += 1;
    }
    proof {
        assert forall|a: int, b: int| 0 <= a < b < order.len() implies precedes(
            images@,
            #[trigger] order[a] as int,
            #[trigger] order[b] as int,
        ) by {
            assert(comes_first(first, places[a] as int, places[b] as int));
        }
        assert forall|j: int| 0 <= j < images.len() && passes(#[trigger] images[j], filters) implies exists|
            k: int,
        | 0 <= k < order.len() && order[k] == j by {
            let at = choose|at: int| 0 <= at < selected.len() && selected[at] == j;
            assert(crate::order::lists(places@, at));
            let k = choose|k: int| 0 <= k < places.len() && places[k] == at;
            assert(order[k] == j);
        }
    }
    order
}

/// The images of the catalogue that belong to a board and pass the user's
/// filters, as they are shown: promoted images first, then later versions
/// before earlier ones, and images that stand equal in the order of the
/// catalogue.
pub fn filter_images_for_board(
    images: &Vec<ArmbianImage>,
    board_slug: &str,
    preapp_filter: Option<&str>,
    kernel_filter: Option<&str>,
    variant_filter: Option<&str>,
    stable_only: bool,
) -> (filtered: Vec<ImageInfo>)
    ensures
        exists|order: Seq<usize>|
            {
                &&& #[trigger] is_shown_order(
                    images@,
                    Filters {
                        board: normalized_slug(board_slug@),
                        preapp: filter_view(preapp_filter),
                        kernel: filter_view(kernel_filter),
                        variant: filter_view(variant_filter),
                        stable_only,
                    },
                    order,
                )
                &&& filtered@.len() == order.len()
                &&& forall|k: int|
                    0 <= k < order.len() ==> shows(#[trigger] filtered@[k], images[order[k] as int])
            },
{
    let order = shown_order(
        images,
        board_slug,
        preapp_filter,
        kernel_filter,
        variant_filter,
        stable_only,
    );
    let mut filtered: Vec<ImageInfo> = Vec::new();
    let mut k: usize = 0;
    while k < order.len()
        invariant
            0 <= k <= order.len(),
            forall|j: int| 0 <= j < order.len() ==> (#[trigger] order[j]) < images.len(),
            filtered@.len() == k,
            forall|j: int| 0 <= j < k ==> shows(#[trigger] filtered@[j], images[order[j] as int]),
        decreases order.len() - k,
    {
        filtered.push(info_of(&images[order[k]]));
        k += 1;
    }
    filtered
}

/// The day that `chrono` reads from a text of the form `2025-12-31`, as
/// `chrono` numbers the days: the first of January of the year 1 is day 1.
/// `None` if `chrono` does not take the text for a date.
pub uninterp spec fn date_days(text: Seq<char>) -> Option<i32>;

/// `chrono::NaiveDate::parse_from_str` with the format `%Y-%m-%d`, and the
/// date that it gives as the number that `Datelike::num_days_from_ce` has
/// for it, which counts the first of January of the year 1 as day 1.
#[verifier::external_body]
pub(crate) fn parse_date(text: &str) -> (days: Option<i32>)
    ensures
        days == date_days(text@),
{
    match chrono::NaiveDate::parse_from_str(text, "%Y-%m-%d") {
        Ok(date) => Some(chrono::Datelike::num_days_from_ce(&date)),
        Err(_) => None,
    }
}

/// The view of a text that may be missing.
pub open spec fn view_of(text: Option<String>) -> Option<Seq<char>> {
    match text {
        Some(t) => Some(t@),
        None => None,
    }
}

/// What the images of one board add up to.
#[derive(Debug)]
pub struct BoardData {
    /// The board's slug in the form in which slugs are compared.
    pub slug: String,
    /// The board's slug as the first of its images gives it.
    pub written_slug: String,
    /// Name, vendor, vendor's name and vendor's logo as the first of the
    /// board's images gives them.
    pub board_name: Option<String>,
    pub vendor: Option<String>,
    pub vendor_name: Option<String>,
    pub vendor_logo: Option<String>,
    /// Number of images of the board.
    pub count: usize,
    /// Some image of the board has standard support, community support,
    /// reached the end of support, is for a TV box, is work in progress.
    pub has_standard_support: bool,
    pub has_community_support: bool,
    pub has_eos_support: bool,
    pub has_tvb_support: bool,
    pub has_wip_support: bool,
    /// Until when the board has platinum support, as the last image says
    /// that says so.
    pub platinum_support_until: Option<String>,
}

/// The data of a board as plain values.
pub struct BoardValues {
    pub slug: Seq<char>,
    pub written_slug: Seq<char>,
    pub board_name: Option<Seq<char>>,
    pub vendor: Option<Seq<char>>,
    pub vendor_name: Option<Seq<char>>,
    pub vendor_logo: Option<Seq<char>>,
    pub count: nat,
    pub has_standard_support: bool,
    pub has_community_support: bool,
    pub has_eos_support: bool,
    pub has_tvb_support: bool,
    pub has_wip_support: bool,
    pub platinum_support_until: Option<Seq<char>>,
}

impl BoardData {
    /// The data as plain values.
    pub open spec fn view(self) -> BoardValues {
        BoardValues {
            slug: self.slug@,
            written_slug: self.written_slug@,
            board_name: view_of(self.board_name),
            vendor: view_of(self.vendor),
            vendor_name: view_of(self.vendor_name),
            vendor_logo: view_of(self.vendor_logo),
            count: self.count as nat,
            has_standard_support: self.has_standard_support,
            has_community_support: self.has_community_support,
            has_eos_support: self.has_eos_support,
            has_tvb_support: self.has_tvb_support,
            has_wip_support: self.has_wip_support,
            platinum_support_until: view_of(self.platinum_support_until),
        }
    }
}

/// The board's data with one more image of the board counted in.  The
/// image's kind of support is noted; an image with configured support
/// counts as standard unless it says that the support is platinum, in
/// which case it may say until when.
pub open spec fn counted_in(board: BoardValues, image: ArmbianImage) -> BoardValues {
    let counted = BoardValues { count: board.count + 1, ..board };
    let support = view_of(image.board_support);
    if support == Some("conf"@) {
        if view_of(image.platinum_support) == Some("true"@) {
            match image.platinum_support_until {
                Some(until) => BoardValues { platinum_support_until: Some(until@), ..counted },
                None => counted,
            }
        } else {
            BoardValues { has_standard_support: true, ..counted }
        }
    } else if support == Some("csc"@) {
        BoardValues { has_community_support: true, ..counted }
    } else if support == Some("eos"@) {
        BoardValues { has_eos_support: true, ..counted }
    } else if support == Some("tvb"@) {
        BoardValues { has_tvb_support: true, ..counted }
    } else if support == Some("wip"@) {
        BoardValues { has_wip_support: true, ..counted }
    } else {
        counted
    }
}

/// A board of which no image is counted yet, as its first image
/// introduces it.
pub open spec fn introduced_by(image: ArmbianImage) -> BoardValues {
    BoardValues {
        slug: normalized_slug(or_empty(image.board_slug)),
        written_slug: or_empty(image.board_slug),
        board_name: view_of(image.board_name),
        vendor: view_of(image.board_vendor),
        vendor_name: view_of(image.company_name),
        vendor_logo: view_of(image.company_logo),
        count: 0,
        has_standard_support: false,
        has_community_support: false,
        has_eos_support: false,
        has_tvb_support: false,
        has_wip_support: false,
        platinum_support_until: None,
    }
}

/// Is `i` the position of the board with the slug?
pub open spec fn is_board_at(boards: Seq<BoardValues>, slug: Seq<char>, i: int) -> bool {
    &&& 0 <= i < boards.len()
    &&& boards[i].slug == slug
    &&& forall|j: int| 0 <= j < i ==> boards[j].slug != slug
}

/// The boards with one more image taken in: the image is counted in with
/// its board, which is put behind the others if this is its first image.
/// An image without a slug belongs to no board.
pub open spec fn with_image(boards: Seq<BoardValues>, image: ArmbianImage) -> Seq<BoardValues> {
    if image.board_slug is None {
        boards
    } else {
        let slug = normalized_slug(or_empty(image.board_slug));
        if exists|i: int| is_board_at(boards, slug, i) {
            let i = choose|i: int| is_board_at(boards, slug, i);
            boards.update(i, counted_in(boards[i], image))
        } else {
            boards.push(counted_in(introduced_by(image), image))
        }
    }
}

/// The boards of the first `n` images, in the order in which the
/// catalogue first names them.
pub open spec fn grouped(images: Seq<ArmbianImage>, n: int) -> Seq<BoardValues>
    decreases n,
{
    if n <= 0 {
        Seq::empty()
    } else {
        with_image(grouped(images, n - 1), images[n - 1])
    }
}

/// The data of the boards as plain values.
pub open spec fn board_views(boards: Seq<BoardData>) -> Seq<BoardValues> {
    Seq::new(boards.len(), |i: int| boards[i]@)
}

fn is_text(value: &Option<String>, text: &str) -> (same: bool)
    ensures
        same == (view_of(*value) == Some(text@)),
{
    match value {
        Some(v) => same_text(v.as_str(), text),
        None => false,
    }
}

fn count_in(board: BoardData, image: &ArmbianImage) -> (counted: BoardData)
    requires
        board.count < usize::MAX,
    ensures
        counted@ == counted_in(board@, *image),
{
    let mut counted = board;
    counted.count = counted.count + 1;
    if is_text(&image.board_support, "conf") {
        if is_text(&image.platinum_support, "true") {
            match &image.platinum_support_until {
                Some(until) => {
                    counted.platinum_support_until = Some(until.clone());
                },
                None => {},
            }
        } else {
            counted.has_standard_support = true;
        }
    } else if is_text(&image.board_support, "csc") {
        counted.has_community_support = true;
    } else if is_text(&image.board_support, "eos") {
        counted.has_eos_support = true;
    } else if is_text(&image.board_support, "tvb") {
        counted.has_tvb_support = true;
    } else if is_text(&image.board_support, "wip") {
        counted.has_wip_support = true;
    }
    counted
}

/// The boards that the images of the catalogue belong to, each with what
/// its images add up to, in the order in which the catalogue first names
/// them.
pub fn group_by_board(images: &Vec<ArmbianImage>) -> (boards: Vec<BoardData>)
    ensures
        board_views(boards@) == grouped(images@, images.len() as int),
{
    let mut boards: Vec<BoardData> = Vec::new();
    let mut n: usize = 0;
    proof {
        assert(board_views(boards@) =~= grouped(images@, 0));
    }
    while n < images.len()
        invariant
            0 <= n <= images.len(),
            board_views(boards@) == grouped(images@, n as int),
            forall|k: int| 0 <= k < boards.len() ==> (#[trigger] boards[k]).count <= n,
        decreases images.len() - n,
    {
        let ghost before = board_views(boards@);
        match &images[n].board_slug {
            Some(slug) => {
                let normalized = normalize_slug(slug.as_str());
                let mut at: usize = 0;
                while at < boards.len() && !same_text(
                    boards[at].slug.as_str(),
                    normalized.as_str(),
                )
                    invariant
                        0 <= at <= boards.len(),
                        forall|j: int| 0 <= j < at ==> boards[j].slug@ != normalized@,
                    decreases boards.len() - at,
                {
                    at += 1;
                }
                if at < boards.len() {
                    proof {
                        assert(is_board_at(before, normalized@, at as int)) by {
                            assert(before[at as int] == boards[at as int]@);
                            assert forall|j: int| 0 <= j < at implies before[j].slug
                                != normalized@ by {
                                assert(before[j] == boards[j]@);
                            }
                        }
                        let chosen = choose|i: int| is_board_at(before, normalized@, i);
                        if chosen < at {
                            assert(before[chosen].slug != normalized@);
                        } else if at < chosen {
                            assert(before[at as int].slug != normalized@);
                        }
                    }
                    let board = boards.remove(at);
                    let counted = count_in(board, &images[n]);
                    boards.insert(at, counted);
                    proof {
                        assert(board_views(boards@) =~= before.update(
                            at as int,
                            counted_in(before[at as int], images[n as int]),
                        ));
                    }
                } else {
                    proof {
                        assert(!exists|i: int| is_board_at(before, normalized@, i)) by {
                            assert forall|i: int| !is_board_at(before, normalized@, i) by {
                                if 0 <= i < before.len() {
                                    assert(before[i] == boards[i]@);
                                }
                            }
                        }
                    }
                    let introduced = BoardData {
                        slug: normalized,
                        written_slug: slug.clone(),
                        board_name: images[n].board_name.clone(),
                        vendor: images[n].board_vendor.clone(),
                        vendor_name: images[n].company_name.clone(),
                        vendor_logo: images[n].company_logo.clone(),
                        count: 0,
                        has_standard_support: false,
                        has_community_support: false,
                        has_eos_support: false,
                        has_tvb_support: false,
                        has_wip_support: false,
                        platinum_support_until: None,
                    };
                    proof {
                        assert(introduced@ == introduced_by(images[n as int]));
                    }
                    let counted = count_in(introduced, &images[n]);
                    boards.push(counted);
                    proof {
                        assert(board_views(boards@) =~= before.push(
                            counted_in(introduced_by(images[n as int]), images[n as int]),
                        ));
                    }
                }
            },
            None => {},
        }
        n += 1;
    }
    boards
}

/// A board as it is shown in the list of boards.
#[derive(Debug)]
pub struct BoardInfo {
    pub slug: String,
    pub name: String,
    pub vendor: String,
    pub vendor_name: String,
    pub vendor_logo: Option<String>,
    pub image_count: usize,
    pub has_standard_support: bool,
    pub has_community_support: bool,
    pub has_platinum_support: bool,
    pub has_eos_support: bool,
    pub has_tvb_support: bool,
    pub has_wip_support: bool,
}

/// A board as it is shown, as plain values.
pub struct BoardShown {
    pub slug: Seq<char>,
    pub name: Seq<char>,
    pub vendor: Seq<char>,
    pub vendor_name: Seq<char>,
    pub vendor_logo: Option<Seq<char>>,
    pub image_count: nat,
    pub has_standard_support: bool,
    pub has_community_support: bool,
    pub has_platinum_support: bool,
    pub has_eos_support: bool,
    pub has_tvb_support: bool,
    pub has_wip_support: bool,
}

impl BoardInfo {
    /// The board as plain values.
    pub open spec fn view(self) -> BoardShown {
        BoardShown {
            slug: self.slug@,
            name: self.name@,
            vendor: self.vendor@,
            vendor_name: self.vendor_name@,
            vendor_logo: view_of(self.vendor_logo),
            image_count: self.image_count as nat,
            has_standard_support: self.has_standard_support,
            has_community_support: self.has_community_support,
            has_platinum_support: self.has_platinum_support,
            has_eos_support: self.has_eos_support,
            has_tvb_support: self.has_tvb_support,
            has_wip_support: self.has_wip_support,
        }
    }
}

/// Has the board platinum support on the day `today`?  It has if its
/// images say until when, and that day has not passed.
pub open spec fn has_platinum(board: BoardValues, today: i32) -> bool {
    match board.platinum_support_until {
        Some(until) => match date_days(until) {
            Some(day) => day >= today,
            None => false,
        },
        None => false,
    }
}

/// The name under which a vendor is shown when the catalogue gives none.
pub open spec fn vendor_shown(vendor: Seq<char>) -> Seq<char> {
    if vendor == "other"@ {
        "Other"@
    } else {
        capitalized_words(vendor)
    }
}

/// The board as it is shown on the day `today`.
///
/// A board without a name goes by its slug.  A board whose vendor has no
/// logo is listed under `other`.  Of the kinds of support a board shows
/// the best that any of its images has: platinum and standard before
/// community, that before end of support, that before TV box, that before
/// work in progress.
pub open spec fn board_shown(board: BoardValues, today: i32) -> BoardShown {
    let platinum = has_platinum(board, today);
    let standard = board.has_standard_support;
    let has_logo = board.vendor_logo is Some && board.vendor_logo->0.len() > 0;
    let vendor = if has_logo {
        match board.vendor {
            Some(id) => id,
            None => "other"@,
        }
    } else {
        "other"@
    };
    let community = board.has_community_support && !standard && !platinum;
    let eos = board.has_eos_support && !standard && !platinum && !community;
    let tvb = board.has_tvb_support && !standard && !platinum && !community && !eos;
    let wip = board.has_wip_support && !standard && !platinum && !community && !eos && !tvb;
    BoardShown {
        slug: board.slug,
        name: match board.board_name {
            Some(name) => name,
            None => board.written_slug,
        },
        vendor: vendor,
        vendor_name: if has_logo {
            if board.vendor_name is Some && board.vendor_name->0.len() > 0 {
                board.vendor_name->0
            } else {
                vendor_shown(vendor)
            }
        } else {
            "Other"@
        },
        vendor_logo: if has_logo {
            board.vendor_logo
        } else {
            None
        },
        image_count: board.count,
        has_standard_support: standard,
        has_community_support: community,
        has_platinum_support: platinum,
        has_eos_support: eos,
        has_tvb_support: tvb,
        has_wip_support: wip,
    }
}

fn platinum_on(board: &BoardData, today: i32) -> (platinum: bool)
    ensures
        platinum == has_platinum(board@, today),
{
    match &board.platinum_support_until {
        Some(until) => match parse_date(until.as_str()) {
            Some(day) => day >= today,
            None => false,
        },
        None => false,
    }
}

/// The board as it is shown on the day `today`, given as the number of
/// days since the first of January of the year 1.
pub fn board_info(board: &BoardData, today: i32) -> (info: BoardInfo)
    ensures
        info@ == board_shown(board@, today),
{
    let platinum = platinum_on(board, today);
    let standard = board.has_standard_support;
    let has_logo = match &board.vendor_logo {
        Some(logo) => logo.as_str().unicode_len() > 0,
        None => false,
    };
    let vendor = if has_logo {
        match &board.vendor {
            Some(id) => id.clone(),
            None => "other".to_owned(),
        }
    } else {
        "other".to_owned()
    };
    let named = match &board.vendor_name {
        Some(name) => name.as_str().unicode_len() > 0,
        None => false,
    };
    let vendor_name = if has_logo {
        if named {
            owned(&board.vendor_name)
        } else {
            capitalize_vendor(vendor.as_str())
        }
    } else {
        "Other".to_owned()
    };
    let vendor_logo = if has_logo {
        board.vendor_logo.clone()
    } else {
        None
    };
    let community = board.has_community_support && !standard && !platinum;
    let eos = board.has_eos_support && !standard && !platinum && !community;
    let tvb = board.has_tvb_support && !standard && !platinum && !community && !eos;
    let wip = board.has_wip_support && !standard && !platinum && !community && !eos && !tvb;
    BoardInfo {
        slug: board.slug.clone(),
        name: match &board.board_name {
            Some(name) => name.clone(),
            None => board.written_slug.clone(),
        },
        vendor,
        vendor_name,
        vendor_logo,
        image_count: board.count,
        has_standard_support: standard,
        has_community_support: community,
        has_platinum_support: platinum,
        has_eos_support: eos,
        has_tvb_support: tvb,
        has_wip_support: wip,
    }
}

/// What decides the place of a board in the list.
#[derive(Debug)]
pub struct BoardKey {
    pub platinum: bool,
    pub standard: bool,
    /// The board's name in lower case.
    pub name: String,
}

/// Is the board with key `a` listed before the board with key `b` for what
/// they are?  Boards with platinum support come first, then boards with
/// standard support, and among boards that stand equal in that the names
/// decide, letter case aside.
pub open spec fn listed_first(keys: Seq<BoardKey>, a: int, b: int) -> bool {
    if keys[a].platinum != keys[b].platinum {
        keys[a].platinum
    } else if keys[a].standard != keys[b].standard {
        keys[a].standard
    } else {
        text_order(keys[a].name@, keys[b].name@) == TextOrder::Before
    }
}

/// The order of the list of boards with these keys.
pub open spec fn board_ordering(keys: Seq<BoardKey>) -> spec_fn(int, int) -> bool {
    |a: int, b: int| listed_first(keys, a, b)
}

/// The order of the list of boards is an order.
pub proof fn lemma_listed_first_is_ordering(keys: Seq<BoardKey>)
    ensures
        is_ordering(board_ordering(keys), keys.len() as int),
{
    let first = board_ordering(keys);
    assert forall|a: int, b: int| 0 <= a < keys.len() && 0 <= b < keys.len() implies !(
    #[trigger] first(a, b) && first(b, a)) by {
        lemma_text_order_mirror(keys[a].name@, keys[b].name@);
    }
    assert forall|s: int, x: int, y: int|
        0 <= s < keys.len() && 0 <= x < keys.len() && 0 <= y < keys.len() && #[trigger] first(s, x)
            && !#[trigger] first(y, x) implies first(s, y) by {
        lemma_text_order_mirror(keys[s].name@, keys[x].name@);
        lemma_text_order_mirror(keys[y].name@, keys[x].name@);
        lemma_text_order_mirror(keys[s].name@, keys[y].name@);
        if keys[s].platinum == keys[x].platinum && keys[x].platinum == keys[y].platinum
            && keys[s].standard == keys[x].standard && keys[x].standard == keys[y].standard {
            // s < x, and not y < x, so s < x <= y
            lemma_text_order_transitive(keys[s].name@, keys[x].name@, keys[y].name@);
        }
    }
}

fn is_listed_first(keys: &Vec<BoardKey>, a: usize, b: usize) -> (first: bool)
    requires
        a < keys.len(),
        b < keys.len(),
    ensures
        first == listed_first(keys@, a as int, b as int),
{
    if keys[a].platinum != keys[b].platinum {
        keys[a].platinum
    } else if keys[a].standard != keys[b].standard {
        keys[a].standard
    } else {
        match compare_text(keys[a].name.as_str(), keys[b].name.as_str()) {
            TextOrder::Before => true,
            _ => false,
        }
    }
}

/// The key of a board as it is shown.
pub open spec fn key_of(key: BoardKey, shown: BoardShown) -> bool {
    &&& key.platinum == shown.has_platinum_support
    &&& key.standard == shown.has_standard_support
    &&& key.name@ == lowercase_of(shown.name)
}

/// The boards of the catalogue as they are listed on the day `today`:
/// boards with platinum support first, then boards with standard support,
/// then the others, each group by name; boards that stand equal come in the
/// order in which the catalogue first names them.
pub fn get_unique_boards(images: &Vec<ArmbianImage>, today: i32) -> (boards: Vec<BoardInfo>)
    ensures
        exists|keys: Seq<BoardKey>, order: Seq<usize>|
            {
                let grouped = grouped(images@, images.len() as int);
                &&& keys.len() == grouped.len()
                &&& forall|i: int|
                    0 <= i < keys.len() ==> key_of(#[trigger] keys[i], board_shown(grouped[i], today))
                &&& #[trigger] is_stable_order(board_ordering(keys), keys.len() as int, order)
                &&& boards@.len() == order.len()
                &&& forall|k: int|
                    0 <= k < order.len() ==> (#[trigger] boards@[k])@ == board_shown(
                        grouped[order[k] as int],
                        today,
                    )
            },
{
    let groups = group_by_board(images);
    let ghost grouped = grouped(images@, images.len() as int);
    let mut keys: Vec<BoardKey> = Vec::new();
    let mut i: usize = 0;
    while i < groups.len()
        invariant
            0 <= i <= groups.len(),
            board_views(groups@) == grouped,
            keys.len() == i,
            forall|k: int| 0 <= k < i ==> key_of(#[trigger] keys[k], board_shown(grouped[k], today)),
        decreases groups.len() - i,
    {
        proof {
            assert(board_views(groups@)[i as int] == groups[i as int]@);
        }
        let info = board_info(&groups[i], today);
        keys.push(
            BoardKey {
                platinum: info.has_platinum_support,
                standard: info.has_standard_support,
                name: info.name.as_str().to_lowercase(),
            },
        );
        i += 1;
    }
    let ghost first = board_ordering(keys@);
    proof {
        lemma_listed_first_is_ordering(keys@);
    }
    let goes_first = |a: usize, b: usize| -> (r: bool)
        requires
            a < keys.len(),
            b < keys.len(),
        ensures
            r == listed_first(keys@, a as int, b as int),
        { is_listed_first(&keys, a, b) };
    let order = stable_order(keys.len(), goes_first, Ghost(first));
    let mut boards: Vec<BoardInfo> = Vec::new();
    let mut k: usize = 0;
    while k < order.len()
        invariant
            0 <= k <= order.len(),
            board_views(groups@) == grouped,
            forall|j: int| 0 <= j < order.len() ==> (#[trigger] order[j]) < groups.len(),
            boards@.len() == k,
            forall|j: int|
                0 <= j < k ==> (#[trigger] boards@[j])@ == board_shown(
                    grouped[order[j] as int],
                    today,
                ),
        decreases order.len() - k,
    {
        proof {
            assert(board_views(groups@)[order[k as int] as int] == groups[order[k as int] as int]@);
        }
        boards.push(board_info(&groups[order[k]], today));
        k += 1;
    }
    boards
}

} // verus!
