//! Grouping of the chat list into folder sections for the sidebar.

use crate::api::csa::CsaFolder;
use crate::gui::screen::ChatEntry;
use crate::text::{eq_str, to_string};
use vstd::prelude::*;

verus! {

/// A sidebar section: either a named folder or the catch-all "Sonstige".
#[derive(Debug, Clone)]
pub struct SidebarSection {
    pub folder_id: String,
    pub name: String,
    pub chat_indices: Vec<usize>,
    pub is_system: bool,
}

/// The mathematical content of a sidebar section.
pub struct SectionView {
    pub folder_id: Seq<char>,
    pub name: Seq<char>,
    pub chat_indices: Seq<usize>,
    pub is_system: bool,
}

impl View for SidebarSection {
    type V = SectionView;

    open spec fn view(&self) -> SectionView {
        SectionView {
            folder_id: self.folder_id@,
            name: self.name@,
            chat_indices: self.chat_indices@,
            is_system: self.is_system,
        }
    }
}

/// Index of the first folder whose ID is `id`.
pub open spec fn find_folder(folders: Seq<CsaFolder>, id: Seq<char>) -> Option<int>
    decreases folders.len(),
{
    if folders.len() == 0 {
        None
    } else if folders[0].id@ == id {
        Some(0)
    } else {
        match find_folder(folders.drop_first(), id) {
            Some(k) => Some(k + 1),
            None => None,
        }
    }
}

/// Index of the folder `id` when it exists and is not deleted.
pub open spec fn live_folder(folders: Seq<CsaFolder>, id: Seq<char>) -> Option<int> {
    match find_folder(folders, id) {
        Some(k) => if folders[k].is_deleted {
            None
        } else {
            Some(k)
        },
        None => None,
    }
}

/// Indices, ascending, of the first `n` chats that folder `f` references.
pub open spec fn matching_chats(chats: Seq<ChatEntry>, f: CsaFolder, n: nat) -> Seq<usize>
    decreases n,
{
    if n == 0 {
        Seq::empty()
    } else {
        let prev = matching_chats(chats, f, (n - 1) as nat);
        if f.has_conversation(chats[n - 1].id@) {
            prev.push((n - 1) as usize)
        } else {
            prev
        }
    }
}

/// Whether a folder type is one of the system folders.
pub open spec fn is_system_type(t: Seq<char>) -> bool {
    t == "Favorites"@ || t == "QuickViews"@
}

/// The section that a live folder contributes.
pub open spec fn folder_section(chats: Seq<ChatEntry>, f: CsaFolder) -> SectionView {
    SectionView {
        folder_id: f.id@,
        name: f.name@,
        chat_indices: matching_chats(chats, f, chats.len()),
        is_system: is_system_type(f.folder_type@),
    }
}

/// The folder sections, in the order `order` lists live folders.
pub open spec fn folder_sections(
    chats: Seq<ChatEntry>,
    folders: Seq<CsaFolder>,
    order: Seq<String>,
) -> Seq<SectionView>
    decreases order.len(),
{
    if order.len() == 0 {
        Seq::empty()
    } else {
        let prev = folder_sections(chats, folders, order.drop_last());
        match live_folder(folders, order.last()@) {
            Some(k) => prev.push(folder_section(chats, folders[k])),
            None => prev,
        }
    }
}

/// Whether some live folder listed in `order` references conversation `id`.
pub open spec fn in_listed_folder(id: Seq<char>, folders: Seq<CsaFolder>, order: Seq<String>) -> bool
    decreases order.len(),
{
    order.len() > 0 && (in_listed_folder(id, folders, order.drop_last()) || match live_folder(
        folders,
        order.last()@,
    ) {
        Some(k) => folders[k].has_conversation(id),
        None => false,
    })
}

/// Indices, ascending, of the first `n` chats that no listed live folder
/// references.
pub open spec fn unassigned_chats(
    chats: Seq<ChatEntry>,
    folders: Seq<CsaFolder>,
    order: Seq<String>,
    n: nat,
) -> Seq<usize>
    decreases n,
{
    if n == 0 {
        Seq::empty()
    } else {
        let prev = unassigned_chats(chats, folders, order, (n - 1) as nat);
        if !in_listed_folder(chats[n - 1].id@, folders, order) {
            prev.push((n - 1) as usize)
        } else {
            prev
        }
    }
}

/// The catch-all section.
pub open spec fn other_section(indices: Seq<usize>) -> SectionView {
    SectionView {
        folder_id: "___other___"@,
        name: "Sonstige"@,
        chat_indices: indices,
        is_system: false,
    }
}

/// All sidebar sections: the folder sections, then "Sonstige" when some chat
/// is in no folder or when there is no folder section at all.
pub open spec fn sidebar_sections(
    chats: Seq<ChatEntry>,
    folders: Seq<CsaFolder>,
    order: Seq<String>,
) -> Seq<SectionView> {
    let secs = folder_sections(chats, folders, order);
    let other = unassigned_chats(chats, folders, order, chats.len());
    if other.len() > 0 || secs.len() == 0 {
        secs.push(other_section(other))
    } else {
        secs
    }
}

fn find_folder_index(folders: &[CsaFolder], id: &String) -> (r: Option<usize>)
    ensures
        match r {
            Some(k) => find_folder(folders@, id@) == Some(k as int) && k < folders@.len(),
            None => find_folder(folders@, id@).is_none(),
        },
{
    let mut i: usize = 0;
    proof {
        assert(folders@.skip(0) =~= folders@);
    }
    while i < folders.len()
        invariant
            i <= folders@.len(),
            find_folder(folders@, id@) == match find_folder(folders@.skip(i as int), id@) {
                Some(k) => Some(k + i),
                None => None::<int>,
            },
        decreases folders@.len() - i,
    {
        proof {
            assert(folders@.skip(i as int)[0] == folders@[i as int]);
            assert(folders@.skip(i as int).drop_first() =~= folders@.skip(i + 1));
        }
        if folders[i].id == *id {
            return Some(i);
        }
        i = i + 1;
    }
    proof {
        assert(folders@.skip(i as int).len() == 0);
    }
    None
}

/// Group chats into sidebar sections based on folder assignments.
/// Chats can appear in multiple folders (e.g. Favorites AND a custom folder).
/// "Sonstige" only contains chats not assigned to any folder.
pub fn build_sidebar_sections(
    chats: &[ChatEntry],
    folders: &[CsaFolder],
    folder_order: &[String],
) -> (sections: Vec<SidebarSection>)
    ensures
        sections@.len() == sidebar_sections(chats@, folders@, folder_order@).len(),
        forall|k: int|
            0 <= k < sections@.len() ==> #[trigger] sections@[k]@ == sidebar_sections(
                chats@,
                folders@,
                folder_order@,
            )[k],
{
    let n = chats.len();
    let mut sections: Vec<SidebarSection> = Vec::new();
    let mut ever_assigned: Vec<bool> = Vec::new();
    let mut i: usize = 0;
    while i < n
        invariant
            n == chats@.len(),
            i <= n,
            ever_assigned@.len() == i,
            forall|j: int| 0 <= j < i ==> !#[trigger] ever_assigned@[j],
        decreases n - i,
    {
        ever_assigned.push(false);
        i = i + 1;
    }

    let mut k: usize = 0;
    while k < folder_order.len()
        invariant
            n == chats@.len(),
            k <= folder_order@.len(),
            ever_assigned@.len() == n,
            forall|j: int|
                0 <= j < n ==> #[trigger] ever_assigned@[j] == in_listed_folder(
                    chats@[j].id@,
                    folders@,
                    folder_order@.take(k as int),
                ),
            sections@.len() == folder_sections(chats@, folders@, folder_order@.take(k as int)).len(),
            forall|m: int|
                0 <= m < sections@.len() ==> #[trigger] sections@[m]@ == folder_sections(
                    chats@,
                    folders@,
                    folder_order@.take(k as int),
                )[m],
        decreases folder_order@.len() - k,
    {
        let ghost prefix = folder_order@.take(k as int);
        let ghost next = folder_order@.take(k + 1);
        proof {
            assert(next.drop_last() =~= prefix);
            assert(next.last() == folder_order@[k as int]);
        }
        let folder_id = &folder_order[k];
        match find_folder_index(folders, folder_id) {
            Some(fi) => {
                let folder = &folders[fi];
                if !folder.is_deleted {
                    let is_system = eq_str(folder.folder_type.as_str(), "Favorites") || eq_str(
                        folder.folder_type.as_str(),
                        "QuickViews",
                    );
                    let mut chat_indices: Vec<usize> = Vec::new();
                    let ghost before = ever_assigned@;
                    let mut i: usize = 0;
                    while i < n
                        invariant
                            n == chats@.len(),
                            i <= n,
                            ever_assigned@.len() == n,
                            before.len() == n,
                            chat_indices@ == matching_chats(chats@, *folder, i as nat),
                            forall|j: int|
                                0 <= j < i ==> #[trigger] ever_assigned@[j] == (before[j]
                                    || folder.has_conversation(chats@[j].id@)),
                            forall|j: int|
                                i <= j < n ==> #[trigger] ever_assigned@[j] == before[j],
                        decreases n - i,
                    {
                        if folder.contains_conversation(&chats[i].id) {
                            ever_assigned.set(i, true);
                            chat_indices.push(i);
                        }
                        i = i + 1;
                    }
                    let section = SidebarSection {
                        folder_id: folder.id.clone(),
                        name: folder.name.clone(),
                        chat_indices,
                        is_system,
                    };
                    proof {
                        assert(live_folder(folders@, next.last()@) == Some(fi as int));
                        assert(section@ == folder_section(chats@, folders@[fi as int]));
                    }
                    sections.push(section);
                } else {
                    proof {
                        assert(live_folder(folders@, next.last()@).is_none());
                    }
                }
            },
            None => {},
        }
        k = k + 1;
    }

    proof {
        assert(folder_order@.take(folder_order@.len() as int) =~= folder_order@);
    }
    let mut other_indices: Vec<usize> = Vec::new();
    let mut i: usize = 0;
    while i < n
        invariant
            n == chats@.len(),
            i <= n,
            ever_assigned@.len() == n,
            forall|j: int|
                0 <= j < n ==> #[trigger] ever_assigned@[j] == in_listed_folder(
                    chats@[j].id@,
                    folders@,
                    folder_order@,
                ),
            other_indices@ == unassigned_chats(chats@, folders@, folder_order@, i as nat),
        decreases n - i,
    {
        if !ever_assigned[i] {
            other_indices.push(i);
        }
        i = i + 1;
    }

    if other_indices.len() > 0 || sections.len() == 0 {
        let other = SidebarSection {
            folder_id: to_string("___other___"),
            name: to_string("Sonstige"),
            chat_indices: other_indices,
            is_system: false,
        };
        sections.push(other);
    }
    sections
}

// ---------------------------------------------------------------------------
// Laws
// ---------------------------------------------------------------------------

/// Whether `s` is strictly ascending with every element below `n`.
pub open spec fn ascending_below(s: Seq<usize>, n: nat) -> bool {
    &&& forall|a: int, b: int| 0 <= a < b < s.len() ==> s[a] < s[b]
    &&& forall|a: int| 0 <= a < s.len() ==> s[a] < n
}

/// A found folder is in range and has the requested ID.
pub proof fn lemma_find_folder(folders: Seq<CsaFolder>, id: Seq<char>)
    ensures
        match find_folder(folders, id) {
            Some(k) => 0 <= k < folders.len() && folders[k].id@ == id,
            None => forall|k: int| 0 <= k < folders.len() ==> (#[trigger] folders[k]).id@ != id,
        },
    decreases folders.len(),
{
    if folders.len() > 0 {
        lemma_find_folder(folders.drop_first(), id);
        if folders[0].id@ != id {
            assert forall|k: int| 1 <= k < folders.len() implies (#[trigger] folders[k]).id@ == folders.drop_first()[k - 1].id@ by {}
        }
    }
}

/// Facts about a sequence `cur` that extends the ascending `prev` (all below
/// `m`) by `m` when `add` holds.
proof fn lemma_ascending_push(prev: Seq<usize>, cur: Seq<usize>, m: nat, add: bool)
    requires
        m <= usize::MAX,
        ascending_below(prev, m),
        cur == (if add {
            prev.push(m as usize)
        } else {
            prev
        }),
    ensures
        ascending_below(cur, m + 1),
        forall|i: int|
            0 <= i < m ==> (#[trigger] cur.contains(i as usize) <==> prev.contains(i as usize)),
        cur.contains(m as usize) <==> add,
{
    if add {
        assert(cur[prev.len() as int] == m as usize);
        assert forall|i: int| 0 <= i < m implies (#[trigger] cur.contains(i as usize)
            <==> prev.contains(i as usize)) by {
            if cur.contains(i as usize) {
                let j = choose|j: int| 0 <= j < cur.len() && cur[j] == i as usize;
                if j < prev.len() {
                    assert(prev[j] == i as usize);
                }
            }
            if prev.contains(i as usize) {
                let j = choose|j: int| 0 <= j < prev.len() && prev[j] == i as usize;
                assert(cur[j] == i as usize);
            }
        }
    } else {
        if cur.contains(m as usize) {
            let j = choose|j: int| 0 <= j < cur.len() && cur[j] == m as usize;
            assert(prev[j] < m);
        }
    }
}

/// The chats of a folder section are exactly the chats the folder
/// references, in ascending order.
pub proof fn lemma_matching_chats(chats: Seq<ChatEntry>, f: CsaFolder, n: nat)
    requires
        n <= chats.len(),
        chats.len() <= usize::MAX,
    ensures
        ascending_below(matching_chats(chats, f, n), n),
        forall|i: int|
            0 <= i < n ==> (matching_chats(chats, f, n).contains(i as usize)
                <==> f.has_conversation(#[trigger] chats[i].id@)),
    decreases n,
{
    if n > 0 {
        let m = (n - 1) as nat;
        lemma_matching_chats(chats, f, m);
        lemma_ascending_push(
            matching_chats(chats, f, m),
            matching_chats(chats, f, n),
            m,
            f.has_conversation(chats[m as int].id@),
        );
    }
}

/// Which chats are left for "Sonstige": exactly those in no listed live
/// folder, in ascending order.
pub proof fn lemma_unassigned_chats(
    chats: Seq<ChatEntry>,
    folders: Seq<CsaFolder>,
    order: Seq<String>,
    n: nat,
)
    requires
        n <= chats.len(),
        chats.len() <= usize::MAX,
    ensures
        ascending_below(unassigned_chats(chats, folders, order, n), n),
        forall|i: int|
            0 <= i < n ==> (unassigned_chats(chats, folders, order, n).contains(i as usize)
                <==> !in_listed_folder(#[trigger] chats[i].id@, folders, order)),
    decreases n,
{
    if n > 0 {
        let m = (n - 1) as nat;
        lemma_unassigned_chats(chats, folders, order, m);
        lemma_ascending_push(
            unassigned_chats(chats, folders, order, m),
            unassigned_chats(chats, folders, order, n),
            m,
            !in_listed_folder(chats[m as int].id@, folders, order),
        );
    }
}

/// A chat referenced by a listed live folder appears in that folder's section.
pub proof fn lemma_listed_chat_in_folder_section(
    chats: Seq<ChatEntry>,
    folders: Seq<CsaFolder>,
    order: Seq<String>,
    i: int,
)
    requires
        0 <= i < chats.len(),
        chats.len() <= usize::MAX,
        in_listed_folder(chats[i].id@, folders, order),
    ensures
        exists|k: int|
            0 <= k < folder_sections(chats, folders, order).len() && (#[trigger] folder_sections(
                chats,
                folders,
                order,
            )[k]).chat_indices.contains(i as usize),
    decreases order.len(),
{
    let prev = folder_sections(chats, folders, order.drop_last());
    if in_listed_folder(chats[i].id@, folders, order.drop_last()) {
        lemma_listed_chat_in_folder_section(chats, folders, order.drop_last(), i);
        let k = choose|k: int|
            0 <= k < prev.len() && (#[trigger] prev[k]).chat_indices.contains(i as usize);
        match live_folder(folders, order.last()@) {
            Some(fi) => {
                assert(folder_sections(chats, folders, order)[k] == prev[k]);
            },
            None => {},
        }
    } else {
        lemma_find_folder(folders, order.last()@);
        let fi = live_folder(folders, order.last()@).unwrap();
        lemma_matching_chats(chats, folders[fi], chats.len());
        let secs = folder_sections(chats, folders, order);
        assert(secs[prev.len() as int] == folder_section(chats, folders[fi]));
        assert(secs[prev.len() as int].chat_indices.contains(i as usize));
    }
}

/// Every section lists ascending indices of existing chats.
pub proof fn lemma_folder_sections_ascending(
    chats: Seq<ChatEntry>,
    folders: Seq<CsaFolder>,
    order: Seq<String>,
)
    requires
        chats.len() <= usize::MAX,
    ensures
        forall|k: int|
            0 <= k < folder_sections(chats, folders, order).len() ==> ascending_below(
                (#[trigger] folder_sections(chats, folders, order)[k]).chat_indices,
                chats.len(),
            ),
    decreases order.len(),
{
    if order.len() > 0 {
        lemma_folder_sections_ascending(chats, folders, order.drop_last());
        lemma_find_folder(folders, order.last()@);
        let prev = folder_sections(chats, folders, order.drop_last());
        let secs = folder_sections(chats, folders, order);
        match live_folder(folders, order.last()@) {
            Some(fi) => {
                lemma_matching_chats(chats, folders[fi], chats.len());
                assert forall|k: int| 0 <= k < secs.len() implies ascending_below(
                    (#[trigger] secs[k]).chat_indices,
                    chats.len(),
                ) by {
                    if k < prev.len() {
                        assert(secs[k] == prev[k]);
                    }
                }
            },
            None => {},
        }
    }
}

/// Whether chat `i` is listed in some section of `secs`.
pub open spec fn covered(secs: Seq<SectionView>, i: int) -> bool {
    exists|k: int| 0 <= k < secs.len() && (#[trigger] secs[k]).chat_indices.contains(i as usize)
}

/// Sidebar grouping law: every chat appears in at least one section; every
/// section lists existing chats in ascending order; a folder section holds
/// exactly the chats its folder references; and "Sonstige", when present,
/// is the last section and holds exactly the chats that no listed live folder
/// references.
pub proof fn lemma_sidebar_sections_partition(
    chats: Seq<ChatEntry>,
    folders: Seq<CsaFolder>,
    order: Seq<String>,
)
    requires
        chats.len() <= usize::MAX,
    ensures
        forall|i: int|
            0 <= i < chats.len() ==> #[trigger] covered(sidebar_sections(chats, folders, order), i),
        forall|k: int|
            0 <= k < sidebar_sections(chats, folders, order).len() ==> ascending_below(
                (#[trigger] sidebar_sections(chats, folders, order)[k]).chat_indices,
                chats.len(),
            ),
        sidebar_sections(chats, folders, order).len() >= 1,
        forall|i: int|
            0 <= i < chats.len() && !in_listed_folder(#[trigger] chats[i].id@, folders, order)
                ==> sidebar_sections(chats, folders, order).last() == other_section(
                unassigned_chats(chats, folders, order, chats.len()),
            ) && sidebar_sections(chats, folders, order).last().chat_indices.contains(i as usize),
{
    let secs = folder_sections(chats, folders, order);
    let other = unassigned_chats(chats, folders, order, chats.len());
    let all = sidebar_sections(chats, folders, order);
    lemma_unassigned_chats(chats, folders, order, chats.len());
    lemma_folder_sections_ascending(chats, folders, order);
    assert forall|i: int| 0 <= i < chats.len() implies #[trigger] covered(all, i) by {
        if in_listed_folder(chats[i].id@, folders, order) {
            lemma_listed_chat_in_folder_section(chats, folders, order, i);
            let k = choose|k: int|
                0 <= k < secs.len() && (#[trigger] secs[k]).chat_indices.contains(i as usize);
            assert(all[k] == secs[k]);
        } else {
            assert(other.contains(i as usize));
            assert(all[secs.len() as int] == other_section(other));
        }
    }
    assert forall|k: int| 0 <= k < all.len() implies ascending_below(
        (#[trigger] all[k]).chat_indices,
        chats.len(),
    ) by {
        if k < secs.len() {
            assert(all[k] == secs[k]);
        }
    }
    assert forall|i: int|
        0 <= i < chats.len() && !in_listed_folder(#[trigger] chats[i].id@, folders, order) implies all.last()
        == other_section(other) && all.last().chat_indices.contains(i as usize) by {
        assert(other.contains(i as usize));
    }
}

} // verus!
