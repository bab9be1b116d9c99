//! Sentinel framing: three captured outputs travel as one buffer,
//! `<metadata><END><name-status><SEPARATOR><numstat>`, and are cut apart again
//! at the same sentinels.

use crate::text::{contains, find, find_first, is_first_occurrence, lemma_find,
    lemma_first_occurrence_is_found, occurs_at, slice_of, to_chars, to_text};
use vstd::prelude::*;

verus! {

/// Opens the metadata block.
pub const START_MARKER: &'static str = "---GITAGENT_START---";

/// Closes the metadata block.
pub const END_MARKER: &'static str = "---GITAGENT_END---";

/// Stands between the name-status listing and the numstat listing.
pub const SEPARATOR: &'static str = "---GIT_SEPARATOR---";

/// The characters of `START_MARKER`.
pub open spec fn start_marker() -> Seq<char> {
    START_MARKER@
}

/// The characters of `END_MARKER`.
pub open spec fn end_marker() -> Seq<char> {
    END_MARKER@
}

/// The characters of `SEPARATOR`.
pub open spec fn separator() -> Seq<char> {
    SEPARATOR@
}

/// `s` up to the first occurrence of `pat`, or all of `s` when there is none.
pub open spec fn until(s: Seq<char>, pat: Seq<char>) -> Seq<char> {
    match find(s, pat) {
        Some(j) => s.take(j),
        None => s,
    }
}

/// The framed buffer. The metadata output is kept up to and including its
/// first end marker, and the two listings follow it with the separator
/// between them. A metadata output without end marker is the whole buffer.
pub open spec fn frame(metadata: Seq<char>, name_status: Seq<char>, numstat: Seq<char>) -> Seq<
    char,
> {
    match find(metadata, end_marker()) {
        Some(i) => metadata.take(i + end_marker().len()) + name_status + separator() + numstat,
        None => metadata,
    }
}

/// The three sections of a framed buffer, as sequences of characters.
pub ghost struct SectionsModel {
    pub metadata: Seq<char>,
    pub name_status: Seq<char>,
    pub numstat: Seq<char>,
}

/// The three sections of a framed buffer.
#[derive(Debug)]
pub struct Sections {
    /// What stands before the first end marker.
    pub metadata: String,
    /// The name-status listing.
    pub name_status: String,
    /// The numstat listing.
    pub numstat: String,
}

impl View for Sections {
    type V = SectionsModel;

    open spec fn view(&self) -> SectionsModel {
        SectionsModel {
            metadata: self.metadata@,
            name_status: self.name_status@,
            numstat: self.numstat@,
        }
    }
}

/// The sections of `buffer`. The metadata section ends at the first end
/// marker. What follows that marker, up to the next end marker if there is
/// one, holds the two listings, cut at the first separator; without separator
/// all of it is the name-status listing. A buffer without end marker has three
/// empty sections.
pub open spec fn sections(buffer: Seq<char>) -> SectionsModel {
    match find(buffer, end_marker()) {
        None => SectionsModel {
            metadata: Seq::empty(),
            name_status: Seq::empty(),
            numstat: Seq::empty(),
        },
        Some(i) => {
            let listings = until(buffer.skip(i + end_marker().len()), end_marker());
            match find(listings, separator()) {
                Some(k) => SectionsModel {
                    metadata: buffer.take(i),
                    name_status: listings.take(k),
                    numstat: listings.skip(k + separator().len()),
                },
                None => SectionsModel {
                    metadata: buffer.take(i),
                    name_status: listings,
                    numstat: Seq::empty(),
                },
            }
        },
    }
}

/// Appends the characters of `src` to `dst`.
pub fn push_all(dst: &mut Vec<char>, src: &Vec<char>)
    ensures
        final(dst)@ == old(dst)@ + src@,
{
    let mut k: usize = 0;
    while k < src.len()
        invariant
            k <= src.len(),
            dst@ == old(dst)@ + src@.take(k as int),
        decreases src.len() - k,
    {
        dst.push(src[k]);
        k += 1;
    }
    proof {
        assert(src@.take(src@.len() as int) =~= src@);
    }
}

/// Frames the three captured outputs as one buffer.
pub fn frame_outputs(metadata: &str, name_status: &str, numstat: &str) -> (buffer: String)
    ensures
        buffer@ == frame(metadata@, name_status@, numstat@),
{
    let meta = to_chars(metadata);
    let end = to_chars(END_MARKER);
    match find_first(&meta, &end) {
        None => to_text(&meta),
        Some(i) => {
            proof {
                lemma_find(meta@, end@);
            }
            let mut out = slice_of(&meta, 0, i + end.len());
            let ns = to_chars(name_status);
            let sep = to_chars(SEPARATOR);
            let num = to_chars(numstat);
            push_all(&mut out, &ns);
            push_all(&mut out, &sep);
            push_all(&mut out, &num);
            to_text(&out)
        },
    }
}

/// Cuts a framed buffer into its three sections.
pub fn split_framed(buffer: &str) -> (parts: Sections)
    ensures
        parts@ == sections(buffer@),
{
    let buf = to_chars(buffer);
    let end = to_chars(END_MARKER);
    let sep = to_chars(SEPARATOR);
    match find_first(&buf, &end) {
        None => Sections {
            metadata: String::new(),
            name_status: String::new(),
            numstat: String::new(),
        },
        Some(i) => {
            proof {
                lemma_find(buf@, end@);
            }
            let head = slice_of(&buf, 0, i);
            let rest = slice_of(&buf, i + end.len(), buf.len());
            let listings = match find_first(&rest, &end) {
                Some(j) => {
                    proof {
                        lemma_find(rest@, end@);
                    }
                    slice_of(&rest, 0, j)
                },
                None => rest,
            };
            match find_first(&listings, &sep) {
                Some(k) => {
                    proof {
                        lemma_find(listings@, sep@);
                    }
                    let ns = slice_of(&listings, 0, k);
                    let num = slice_of(&listings, k + sep.len(), listings.len());
                    Sections {
                        metadata: to_text(&head),
                        name_status: to_text(&ns),
                        numstat: to_text(&num),
                    }
                },
                None => Sections {
                    metadata: to_text(&head),
                    name_status: to_text(&listings),
                    numstat: String::new(),
                },
            }
        },
    }
}

/// The two listings can be told apart again after framing: no end marker
/// stands in what follows the metadata, and the separator that framing puts
/// behind the name-status listing is the first one there.
pub open spec fn collision_free(name_status: Seq<char>, numstat: Seq<char>) -> bool {
    &&& !contains(name_status + separator() + numstat, end_marker())
    &&& find(name_status + separator(), separator()) == Some(name_status.len() as int)
}

/// An occurrence of `pat` in `a + b` that ends within `a` is an occurrence in
/// `a`, and the other way round.
pub proof fn lemma_occurs_in_prefix(a: Seq<char>, b: Seq<char>, pat: Seq<char>, j: int)
    requires
        0 <= j,
        j + pat.len() <= a.len(),
    ensures
        occurs_at(a + b, pat, j) == occurs_at(a, pat, j),
{
    assert((a + b).subrange(j, j + pat.len()) =~= a.subrange(j, j + pat.len()));
}

/// The shape of a framed buffer whose metadata has an end marker: that
/// marker is the first one of the buffer, the metadata up to it stands before
/// it, and the two listings with the separator between them stand behind it.
pub proof fn lemma_frame_shape(metadata: Seq<char>, name_status: Seq<char>, numstat: Seq<char>)
    requires
        contains(metadata, end_marker()),
    ensures
        find(metadata, end_marker()) is Some,
        find(frame(metadata, name_status, numstat), end_marker()) == find(
            metadata,
            end_marker(),
        ),
        frame(metadata, name_status, numstat).take(find(metadata, end_marker()).unwrap())
            == until(metadata, end_marker()),
        frame(metadata, name_status, numstat).skip(
            find(metadata, end_marker()).unwrap() + end_marker().len(),
        ) == name_status + separator() + numstat,
{
    let end = end_marker();
    lemma_find(metadata, end);
    let i = find(metadata, end).unwrap();
    let kept = metadata.take(i + end.len());
    let rest = name_status + separator() + numstat;
    let buffer = frame(metadata, name_status, numstat);
    assert(buffer =~= kept + rest);
    assert(is_first_occurrence(buffer, end, i)) by {
        assert forall|j: int| 0 <= j <= i implies occurs_at(buffer, end, j) == occurs_at(
            metadata,
            end,
            j,
        ) by {
            lemma_occurs_in_prefix(kept, rest, end, j);
            lemma_occurs_in_prefix(kept, metadata.skip(i + end.len()), end, j);
            assert(kept + metadata.skip(i + end.len()) =~= metadata);
        }
    }
    lemma_first_occurrence_is_found(buffer, end, i);
    assert(buffer.skip(i + end.len()) =~= rest);
    assert(buffer.take(i) =~= metadata.take(i));
}

/// The separator that framing puts behind the name-status listing stands
/// there, and it is the first separator of the listings exactly when it is
/// the first one of the name-status listing followed by it.
pub proof fn lemma_separator_in_listings(name_status: Seq<char>, numstat: Seq<char>)
    ensures
        occurs_at(name_status + separator() + numstat, separator(), name_status.len() as int),
        is_first_occurrence(
            name_status + separator() + numstat,
            separator(),
            name_status.len() as int,
        ) == is_first_occurrence(name_status + separator(), separator(), name_status.len() as int),
{
    let sep = separator();
    let n = name_status.len() as int;
    let rest = name_status + sep + numstat;
    assert(rest.subrange(n, n + sep.len()) =~= sep);
    assert((name_status + sep).subrange(n, n + sep.len()) =~= sep);
    assert forall|j: int| 0 <= j <= n implies #[trigger] occurs_at(rest, sep, j) == occurs_at(
        name_status + sep,
        sep,
        j,
    ) by {
        lemma_occurs_in_prefix(name_status + sep, numstat, sep, j);
    }
    if is_first_occurrence(rest, sep, n) {
        assert forall|j: int| 0 <= j < n implies !occurs_at(name_status + sep, sep, j) by {
            assert(!occurs_at(rest, sep, j));
        }
    }
}

/// Framing and cutting apart again gives back the metadata up to its end
/// marker and the two listings, whenever the metadata has an end marker and
/// the listings are free of collisions with the sentinels.
pub proof fn lemma_frame_round_trip(
    metadata: Seq<char>,
    name_status: Seq<char>,
    numstat: Seq<char>,
)
    requires
        contains(metadata, end_marker()),
        collision_free(name_status, numstat),
    ensures
        sections(frame(metadata, name_status, numstat)) == (SectionsModel {
            metadata: until(metadata, end_marker()),
            name_status,
            numstat,
        }),
{
    let sep = separator();
    let rest = name_status + sep + numstat;
    let n = name_status.len() as int;
    lemma_frame_shape(metadata, name_status, numstat);
    // No further end marker cuts the listings short.
    lemma_find(rest, end_marker());
    assert(until(rest, end_marker()) == rest);
    // The separator put in by framing is the first one.
    lemma_find(name_status + sep, sep);
    lemma_separator_in_listings(name_status, numstat);
    lemma_first_occurrence_is_found(rest, sep, n);
    assert(rest.take(n) =~= name_status);
    assert(rest.skip(n + sep.len()) =~= numstat);
}

/// A metadata output without end marker frames to itself, and such a buffer
/// has three empty sections.
pub proof fn lemma_frame_without_end_marker(
    metadata: Seq<char>,
    name_status: Seq<char>,
    numstat: Seq<char>,
)
    requires
        !contains(metadata, end_marker()),
    ensures
        frame(metadata, name_status, numstat) == metadata,
        sections(frame(metadata, name_status, numstat)) == (SectionsModel {
            metadata: Seq::empty(),
            name_status: Seq::empty(),
            numstat: Seq::empty(),
        }),
{
    lemma_find(metadata, end_marker());
}

/// The lengths of the three sentinels.
pub proof fn lemma_sentinel_lengths()
    ensures
        start_marker().len() == 20,
        end_marker().len() == 18,
        separator().len() == 19,
{
    reveal_strlit("---GITAGENT_START---");
    reveal_strlit("---GITAGENT_END---");
    reveal_strlit("---GIT_SEPARATOR---");
}

/// The end marker is no prefix of the separator.
pub proof fn lemma_end_marker_is_no_separator_prefix()
    ensures
        separator().take(end_marker().len() as int) != end_marker(),
{
    reveal_strlit("---GITAGENT_END---");
    reveal_strlit("---GIT_SEPARATOR---");
    assert(separator().take(18)[6] == '_');
    assert(end_marker()[6] == 'A');
}

/// No end marker stands where framing puts the separator.
pub proof fn lemma_no_end_marker_at_separator(name_status: Seq<char>, numstat: Seq<char>)
    ensures
        !occurs_at(name_status + separator() + numstat, end_marker(), name_status.len() as int),
{
    let n = name_status.len() as int;
    let rest = name_status + separator() + numstat;
    lemma_sentinel_lengths();
    lemma_end_marker_is_no_separator_prefix();
    assert(rest.subrange(n, n + end_marker().len()) =~= separator().take(
        end_marker().len() as int,
    ));
}

/// The other way round: where framing and cutting apart again gives back the
/// two listings, they are free of collisions with the sentinels. So
/// `collision_free` leaves out no listings but those that do not survive
/// framing.
pub proof fn lemma_round_trip_needs_collision_free(
    metadata: Seq<char>,
    name_status: Seq<char>,
    numstat: Seq<char>,
)
    requires
        contains(metadata, end_marker()),
        sections(frame(metadata, name_status, numstat)).name_status == name_status,
        sections(frame(metadata, name_status, numstat)).numstat == numstat,
    ensures
        collision_free(name_status, numstat),
{
    let end = end_marker();
    let sep = separator();
    let rest = name_status + sep + numstat;
    let n = name_status.len() as int;
    lemma_frame_shape(metadata, name_status, numstat);
    lemma_separator_in_listings(name_status, numstat);
    lemma_sentinel_lengths();
    let listings = until(rest, end);
    lemma_find(rest, end);
    lemma_find(listings, sep);
    assert(rest.len() == n + sep.len() + numstat.len());
    if let Some(j) = find(rest, end) {
        // A further end marker would cut the listings short.
        assert(listings.len() == j);
        assert(j + end.len() <= rest.len());
        match find(listings, sep) {
            Some(k) => {
                assert(listings.take(k).len() == k);
                assert(listings.skip(k + sep.len()).len() == j - k - sep.len());
                assert(false);
            },
            None => {
                assert(j == n);
                lemma_no_end_marker_at_separator(name_status, numstat);
                assert(false);
            },
        }
    }
    assert(listings == rest);
    match find(rest, sep) {
        Some(k) => {
            assert(rest.take(k).len() == k);
            assert(k == n);
            lemma_first_occurrence_is_found(name_status + sep, sep, n);
        },
        None => {
            assert(false);
        },
    }
}

} // verus!
