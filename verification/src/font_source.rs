use vstd::prelude::*;

verus! {

/// The system fonts tried, in order, when no font file is named.
pub fn system_font_paths() -> (r: Vec<&'static str>)
    ensures
        r@.len() == 2,
        r@[0]@ == "/usr/share/fonts/truetype/dejavu/DejaVuSans.ttf"@,
        r@[1]@ == "/usr/share/fonts/truetype/liberation/LiberationSans-Regular.ttf"@,
{
    let mut paths: Vec<&'static str> = Vec::new();
    paths.push("/usr/share/fonts/truetype/dejavu/DejaVuSans.ttf");
    paths.push("/usr/share/fonts/truetype/liberation/LiberationSans-Regular.ttf");
    paths
}

/// What became of trying one candidate font file.
#[derive(Debug, Clone, Copy, PartialEq, Eq, Structural)]
pub enum FontProbe {
    /// The file does not exist.
    Missing,
    /// The file exists but could not be read.
    ReadFailed,
    /// The file was read.
    Read,
}

/// What the font search does next.
#[derive(Debug, Clone, Copy, PartialEq, Eq, Structural)]
pub enum FontSearchStep {
    /// Try candidate `i`: check that it exists, and read it if it does.
    Probe(usize),
    /// Use the data read from candidate `i`.
    Use(usize),
    /// No candidate was read; report the read error of candidate `i`.
    ReadError(usize),
    /// No candidate was read and none failed to read: no font was found.
    NotFound,
}

/// Index of the last candidate among `probes` that failed to read.
pub open spec fn last_read_failure(probes: Seq<FontProbe>) -> Option<int>
    decreases probes.len(),
{
    if probes.len() == 0 {
        None
    } else if probes.last() == FontProbe::ReadFailed {
        Some(probes.len() - 1)
    } else {
        last_read_failure(probes.drop_last())
    }
}

/// The next step after trying the candidates in order with outcomes
/// `probes`, out of `count` candidates: use a candidate as soon as it is read;
/// otherwise try the next one; after the last, report the last read error,
/// or that no font was found.
pub open spec fn font_search_step(probes: Seq<FontProbe>, count: int) -> FontSearchStep {
    let n = probes.len();
    if n > 0 && probes.last() == FontProbe::Read {
        FontSearchStep::Use((n - 1) as usize)
    } else if n < count {
        FontSearchStep::Probe(n as usize)
    } else {
        match last_read_failure(probes) {
            Some(i) => FontSearchStep::ReadError(i as usize),
            None => FontSearchStep::NotFound,
        }
    }
}

/// The search is still going: no candidate before the last outcome was read.
pub open spec fn search_in_progress(probes: Seq<FontProbe>, count: int) -> bool {
    &&& probes.len() <= count
    &&& forall|i: int| 0 <= i < probes.len() - 1 ==> probes[i] != FontProbe::Read
}

/// Decides the next step of the search for a font among `count` candidates,
/// given the outcomes of the candidates tried so far, in order.
pub fn next_font_step(probes: &Vec<FontProbe>, count: usize) -> (r: FontSearchStep)
    requires
        search_in_progress(probes@, count as int),
    ensures
        r == font_search_step(probes@, count as int),
{
    let n = probes.len();
    if n > 0 && probes[n - 1] == FontProbe::Read {
        return FontSearchStep::Use(n - 1);
    }
    if n < count {
        return FontSearchStep::Probe(n);
    }
    let mut i: usize = n;
    assert(probes@.take(n as int) =~= probes@);
    while i > 0
        invariant
            i <= n == probes@.len(),
            n >= count,
            !(n > 0 && probes@.last() == FontProbe::Read),
            last_read_failure(probes@) == last_read_failure(probes@.take(i as int)),
        decreases i,
    {
        assert(probes@.take(i as int).drop_last() =~= probes@.take(i - 1));
        assert(probes@.take(i as int).last() == probes@[i - 1]);
        if probes[i - 1] == FontProbe::ReadFailed {
            return FontSearchStep::ReadError(i - 1);
        }
        i = i - 1;
    }
    proof {
        assert(probes@.take(0) =~= Seq::<FontProbe>::empty());
    }
    FontSearchStep::NotFound
}

/// Index of the first readable candidate among the first `n` of `all`, if any.
pub open spec fn first_read(all: Seq<FontProbe>, n: int) -> Option<int>
    decreases n,
{
    if n <= 0 {
        None
    } else {
        match first_read(all, n - 1) {
            Some(i) => Some(i),
            None => if all[n - 1] == FontProbe::Read {
                Some(n - 1)
            } else {
                None
            },
        }
    }
}

proof fn lemma_first_read(all: Seq<FontProbe>, n: int)
    requires
        0 <= n <= all.len(),
    ensures
        first_read(all, n) matches Some(i) ==> 0 <= i < n && all[i] == FontProbe::Read
            && forall|j: int| 0 <= j < i ==> all[j] != FontProbe::Read,
        first_read(all, n) is None ==> forall|j: int| 0 <= j < n ==> all[j] != FontProbe::Read,
    decreases n,
{
    if n > 0 {
        lemma_first_read(all, n - 1);
    }
}

/// Running the search to its end, where candidate `i` would give `all[i]`:
/// the candidates are tried in order up to the first that reads; that one is
/// used; when none reads, every candidate is tried and the last read error is
/// reported, or that no font was found.
pub proof fn lemma_font_search_run(all: Seq<FontProbe>)
    ensures
        ({
            let stop = match first_read(all, all.len() as int) {
                Some(i) => i + 1,
                None => all.len() as int,
            };
            &&& forall|j: int|
                0 <= j < stop ==> search_in_progress(#[trigger] all.take(j), all.len() as int)
                    && font_search_step(all.take(j), all.len() as int) == FontSearchStep::Probe(
                    j as usize,
                )
            &&& search_in_progress(all.take(stop), all.len() as int)
            &&& font_search_step(all.take(stop), all.len() as int) == match first_read(
                all,
                all.len() as int,
            ) {
                Some(i) => FontSearchStep::Use(i as usize),
                None => match last_read_failure(all) {
                    Some(i) => FontSearchStep::ReadError(i as usize),
                    None => FontSearchStep::NotFound,
                },
            }
        }),
{
    let n = all.len() as int;
    lemma_first_read(all, n);
    let stop = match first_read(all, n) {
        Some(i) => i + 1,
        None => n,
    };
    assert forall|j: int|
        0 <= j < stop implies search_in_progress(#[trigger] all.take(j), n) && font_search_step(
        all.take(j),
        n,
    ) == FontSearchStep::Probe(j as usize) by {
        if j > 0 {
            assert(all.take(j).last() == all[j - 1]);
        }
    }
    match first_read(all, n) {
        Some(i) => {
            assert(all.take(stop).last() == all[i]);
        },
        None => {
            assert(all.take(n) =~= all);
        },
    }
}

} // verus!
