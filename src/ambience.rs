use vstd::prelude::*;

verus! {

/// The ambient loops; `Silent` plays none.
#[derive(Debug, Clone, Copy, PartialEq, Eq, Hash, Structural)]
pub enum AmbientTrack {
    Silent,
    Home,
    WindowHeader,
    Terminal,
}

/// `pat` occurs in `s` as a contiguous run.
pub open spec fn occurs_in(pat: Seq<char>, s: Seq<char>) -> bool {
    exists|i: int| 0 <= i <= s.len() - pat.len() && #[trigger] s.subrange(i, i + pat.len()) == pat
}

/// The loop that plays while a domain is active: home for the bar, the header loop for window
/// headers, the terminal loop otherwise.
pub open spec fn track_for(domain_id: Seq<char>) -> AmbientTrack {
    if occurs_in("osbar"@, domain_id) {
        AmbientTrack::Home
    } else if occurs_in("header"@, domain_id) {
        AmbientTrack::WindowHeader
    } else {
        AmbientTrack::Terminal
    }
}

/// Whether `pat` occurs in `s`.
pub fn occurs(pat: &str, s: &str) -> (r: bool)
    ensures
        r == occurs_in(pat@, s@),
{
    let n = s.unicode_len();
    let m = pat.unicode_len();
    if m > n {
        return false;
    }
    let mut i: usize = 0;
    while i <= n - m
        invariant
            n == s@.len(),
            m == pat@.len(),
            m <= n,
            i <= n - m + 1,
            forall|k: int| 0 <= k < i ==> #[trigger] s@.subrange(k, k + m) != pat@,
        decreases n - m + 1 - i,
    {
        let mut j: usize = 0;
        let mut same = true;
        while j < m
            invariant
                n == s@.len(),
                m == pat@.len(),
                i + m <= n,
                j <= m,
                same == forall|t: int| 0 <= t < j ==> s@[i + t] == pat@[t],
            decreases m - j,
        {
            if s.get_char(i + j) != pat.get_char(j) {
                same = false;
            }
            j = j + 1;
        }
        if same {
            assert(s@.subrange(i as int, i + m) =~= pat@);
            return true;
        }
        proof {
            assert(exists|t: int| 0 <= t < m && s@[i + t] != pat@[t]);
            let t = choose|t: int| 0 <= t < m && s@[i + t] != pat@[t];
            assert(s@.subrange(i as int, i + m)[t] != pat@[t]);
        }
        i = i + 1;
    }
    false
}

/// The ambient loop for the active domain.
pub fn track_for_domain(domain_id: &str) -> (r: AmbientTrack)
    ensures
        r == track_for(domain_id@),
{
    if occurs("osbar", domain_id) {
        AmbientTrack::Home
    } else if occurs("header", domain_id) {
        AmbientTrack::WindowHeader
    } else {
        AmbientTrack::Terminal
    }
}

/// Which ambient loop is playing; the loop changes only when the active domain calls for
/// another one.
pub struct AmbienceEngine {
    pub current_track: AmbientTrack,
}

impl AmbienceEngine {
    pub fn new() -> (r: AmbienceEngine)
        ensures
            r.current_track == AmbientTrack::Silent,
    {
        AmbienceEngine { current_track: AmbientTrack::Silent }
    }

    /// Follows a change of the active domain; returns the loop to fade to when it differs from
    /// the one playing.
    pub fn update_context(&mut self, domain_id: &str) -> (r: Option<AmbientTrack>)
        ensures
            track_for(domain_id@) != old(self).current_track ==> r == Some(track_for(domain_id@))
                && final(self).current_track == track_for(domain_id@),
            track_for(domain_id@) == old(self).current_track ==> r is None
                && final(self).current_track == old(self).current_track,
    {
        let target = track_for_domain(domain_id);
        if target != self.current_track {
            self.current_track = target;
            Some(target)
        } else {
            None
        }
    }
}

} // verus!
