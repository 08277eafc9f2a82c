//! The export remapper: a transactional pass that, for every text-format
//! source touched during an export, produces a binary artifact at a
//! derived path, temporarily redirects the source's UID to that artifact,
//! and at the end of the session reverts every redirection and deletes
//! every artifact.  The live remap entries are the rollback log; the log
//! is empty again after `_int_export_end` on every path through it.

use vstd::prelude::*;
use vstd::utf8::encode_utf8;

use crate::format::{spec_recognize_prop_format, str_ends_with, str_suffix_matches, GdPropFormat};
use crate::gd_meta::{gdbin_header_bytes, spec_parse_gdron_file};
use crate::gdprop::{save_bin, ResourceRecord};
use crate::gdprop_io::{_int_get_type, _int_get_uid, _int_load_file};
use crate::host::ResourceHost;
use crate::refs::spec_resource_uid;
use crate::uid::spec_id_to_text;

verus! {

/// One live remap: the text source, the derived binary artifact, and the
/// source's UID as captured when the remap was made (`-1` when the source
/// carried no usable UID).
pub struct RemapData {
    pub ron_path: String,
    pub bin_path: String,
    pub uid: i64,
}

/// The remapper's state across one export session: the rollback log and
/// the session's debug flag.
pub struct ExporterState {
    pub remaps: Vec<RemapData>,
    pub debug: bool,
}

/// Remap entries that do not interfere: pairwise distinct UIDs, pairwise
/// distinct artifact paths, and no artifact path that is also a source
/// path.
pub open spec fn spec_remaps_independent(rs: Seq<RemapData>) -> bool {
    &&& forall|i: int, j: int|
        0 <= i < j < rs.len() ==> #[trigger] rs[i].uid != #[trigger] rs[j].uid
    &&& forall|i: int, j: int|
        0 <= i < j < rs.len() ==> #[trigger] rs[i].bin_path@ != #[trigger] rs[j].bin_path@
    &&& forall|i: int, j: int|
        0 <= i < rs.len() && 0 <= j < rs.len() ==> #[trigger] rs[i].bin_path@
            != #[trigger] rs[j].ron_path@
}

/// True when some entry of `rs` carries `u`.
pub open spec fn spec_remaps_carry_uid(rs: Seq<RemapData>, u: int) -> bool {
    exists|i: int| 0 <= i < rs.len() && #[trigger] rs[i].uid == u
}

/// True when some entry of `rs` has `p` as its artifact path.
pub open spec fn spec_remaps_carry_bin(rs: Seq<RemapData>, p: Seq<char>) -> bool {
    exists|i: int| 0 <= i < rs.len() && #[trigger] rs[i].bin_path@ == p
}

/// What a completed session end leaves behind, for a log `rs` of
/// independent entries: every entry's UID maps to its source path again,
/// every artifact whose deletion could run is gone, every failed deletion
/// is reported, and nothing outside the log's UIDs and artifact paths
/// moved.
pub open spec fn spec_export_reverted(
    pre: ResourceHost,
    post: ResourceHost,
    rs: Seq<RemapData>,
    failed: Seq<String>,
) -> bool {
    &&& forall|i: int|
        0 <= i < rs.len() && 0 <= rs[i].uid < i64::MAX ==> post.registry.spec_has_id(
            #[trigger] rs[i].uid as int,
        ) && post.registry.spec_id_path(rs[i].uid as int) == rs[i].ron_path@
    &&& forall|i: int|
        0 <= i < rs.len() && !pre.spec_locked(#[trigger] rs[i].bin_path@)
            ==> !post.files.spec_has_file(rs[i].bin_path@)
    &&& forall|u: int|
        !spec_remaps_carry_uid(rs, u) ==> post.registry.spec_has_id(u)
            == pre.registry.spec_has_id(u)
    &&& forall|u: int|
        !spec_remaps_carry_uid(rs, u) && pre.registry.spec_has_id(u)
            ==> post.registry.spec_id_path(u) == pre.registry.spec_id_path(u)
    &&& forall|p: Seq<char>|
        !spec_remaps_carry_bin(rs, p) ==> post.files.spec_has_file(p)
            == pre.files.spec_has_file(p)
    &&& forall|p: Seq<char>|
        !spec_remaps_carry_bin(rs, p) && pre.files.spec_has_file(p)
            ==> post.files.spec_file_data(p) == pre.files.spec_file_data(p)
    &&& forall|i: int|
        0 <= i < rs.len() && pre.spec_locked(#[trigger] rs[i].bin_path@) ==> exists|j: int|
            0 <= j < failed.len() && #[trigger] failed[j]@ == rs[i].bin_path@
}

impl RemapData {
    /// Captures the UID currently recorded in the source at `ron_path`,
    /// pairing it with the derived artifact path.
    pub fn new(ron_path: &String, bin_path: &String, host: &ResourceHost) -> (r: Self)
        requires
            host.wf(),
        ensures
            r.ron_path@ == ron_path@,
            r.bin_path@ == bin_path@,
            r.uid as int == spec_resource_uid(*host, ron_path@),
            r.uid >= -1,
    {
        let uid = match _int_get_uid(ron_path, host) {
            Ok(id) => id,
            Err(_) => -1,
        };
        RemapData { ron_path: ron_path.clone(), bin_path: bin_path.clone(), uid }
    }

    /// Rebinds the captured UID to `path`; an entry without a usable UID
    /// leaves the registry alone.
    pub fn change_uid(&self, path: &String, host: &mut ResourceHost)
        requires
            old(host).wf(),
        ensures
            final(host).wf(),
            final(host).files == old(host).files,
            final(host).locked == old(host).locked,
            final(host).registry.next_id as int <= if self.uid as int + 1 > old(
                host,
            ).registry.next_id as int {
                self.uid as int + 1
            } else {
                old(host).registry.next_id as int
            },
            0 <= self.uid < i64::MAX ==> final(host).registry.spec_has_id(self.uid as int)
                && final(host).registry.spec_id_path(self.uid as int) == path@,
            0 <= self.uid < i64::MAX ==> forall|u: int|
                u != self.uid ==> final(host).registry.spec_has_id(u) == old(host).registry.spec_has_id(u),
            0 <= self.uid < i64::MAX ==> forall|u: int|
                u != self.uid && old(host).registry.spec_has_id(u) ==> final(host).registry.spec_id_path(u) == old(host).registry.spec_id_path(u),
            !(0 <= self.uid < i64::MAX) ==> *final(host) == *old(host),
    {
        if self.uid >= 0 && self.uid < i64::MAX {
            if host.registry.has_id(self.uid) {
                host.registry.set_id(self.uid, path.clone());
            } else {
                host.registry.add_id(self.uid, path.clone());
            }
        }
    }

    /// Redirects the captured UID to the artifact path for the duration of
    /// the export session.
    pub fn transfer_uid(&self, host: &mut ResourceHost)
        requires
            old(host).wf(),
        ensures
            final(host).wf(),
            final(host).files == old(host).files,
            final(host).locked == old(host).locked,
            0 <= self.uid < i64::MAX ==> final(host).registry.spec_has_id(self.uid as int)
                && final(host).registry.spec_id_path(self.uid as int) == self.bin_path@,
            final(host).registry.next_id as int <= if self.uid as int + 1 > old(
                host,
            ).registry.next_id as int {
                self.uid as int + 1
            } else {
                old(host).registry.next_id as int
            },
            0 <= self.uid < i64::MAX ==> forall|u: int|
                u != self.uid ==> final(host).registry.spec_has_id(u) == old(host).registry.spec_has_id(u),
            0 <= self.uid < i64::MAX ==> forall|u: int|
                u != self.uid && old(host).registry.spec_has_id(u) ==> final(host).registry.spec_id_path(u) == old(host).registry.spec_id_path(u),
            !(0 <= self.uid < i64::MAX) ==> *final(host) == *old(host),
    {
        self.change_uid(&self.bin_path, host);
    }

    /// Reverts the captured UID to the source path, ending its redirection.
    pub fn undo_uid(&self, host: &mut ResourceHost)
        requires
            old(host).wf(),
        ensures
            final(host).wf(),
            final(host).files == old(host).files,
            final(host).locked == old(host).locked,
            0 <= self.uid < i64::MAX ==> final(host).registry.spec_has_id(self.uid as int)
                && final(host).registry.spec_id_path(self.uid as int) == self.ron_path@,
            final(host).registry.next_id as int <= if self.uid as int + 1 > old(
                host,
            ).registry.next_id as int {
                self.uid as int + 1
            } else {
                old(host).registry.next_id as int
            },
            0 <= self.uid < i64::MAX ==> forall|u: int|
                u != self.uid ==> final(host).registry.spec_has_id(u) == old(host).registry.spec_has_id(u),
            0 <= self.uid < i64::MAX ==> forall|u: int|
                u != self.uid && old(host).registry.spec_has_id(u) ==> final(host).registry.spec_id_path(u) == old(host).registry.spec_id_path(u),
            !(0 <= self.uid < i64::MAX) ==> *final(host) == *old(host),
    {
        self.change_uid(&self.ron_path, host);
    }
}

/// The derived artifact path for a text source: the `.gdron` suffix
/// replaced by `_from_ron.gdbin`.
pub fn _int_ron_to_bin_change_path(path: &str) -> (r: String)
    requires
        str_suffix_matches(path@, ".gdron"@),
    ensures
        r@ == path@.subrange(0, path@.len() - 6) + "_from_ron.gdbin"@,
{
    proof {
        reveal_strlit(".gdron");
    }
    let n = path.unicode_len();
    let stem = path.substring_char(0, n - 6);
    let mut out = String::from_str(stem);
    out.append("_from_ron.gdbin");
    out
}

/// True when `path` names a text container source.
pub fn _int_is_gdron(path: &str) -> (r: bool)
    ensures
        r == str_suffix_matches(path@, ".gdron"@),
{
    str_ends_with(path, ".gdron")
}

/// True when `path` names a binary container.
pub fn _int_is_gdbin(path: &str) -> (r: bool)
    ensures
        r == str_suffix_matches(path@, ".gdbin"@),
{
    str_ends_with(path, ".gdbin")
}

/// The bytes of the file at `path`, when it opens: how an already-binary
/// file is passed through during export.
pub fn _int_read_file_to_bytes(path: &String, host: &ResourceHost) -> (r: Option<Vec<u8>>)
    requires
        host.wf(),
    ensures
        r is Some <==> !host.spec_locked(path@) && host.files.spec_has_file(path@),
        r matches Some(v) ==> v@ == host.files.spec_file_data(path@),
{
    if host.is_locked(path) {
        return None;
    }
    host.files.get_file(path)
}

impl ExporterState {
    /// A remapper outside any export session.
    pub fn new() -> (r: Self)
        ensures
            r.remaps@.len() == 0,
            !r.debug,
    {
        ExporterState { remaps: Vec::new(), debug: false }
    }

    /// Starts an export session: clears any residual remap log (a
    /// defensive reset) and records the session's debug flag.
    pub fn _int_export_begin(&mut self, is_debug: bool)
        ensures
            final(self).remaps@.len() == 0,
            final(self).debug == is_debug,
    {
        self.remaps.clear();
        self.debug = is_debug;
    }

    /// Processes one text source: captures its UID, redirects that UID to
    /// the derived artifact path, saves the source's record there in the
    /// binary format, appends the remap to the rollback log, and returns
    /// the artifact's bytes for the host to embed.
    pub fn _int_process_ron_file(
        &mut self,
        ron_path: &String,
        bin_path: &String,
        host: &mut ResourceHost,
    ) -> (r: Vec<u8>)
        requires
            old(host).wf(),
            old(host).registry.next_id + 1 < i64::MAX,
            spec_recognize_prop_format(ron_path@) is GdRon,
            !old(host).spec_locked(ron_path@),
            !old(host).spec_locked(bin_path@),
            old(host).files.spec_has_file(ron_path@),
            spec_resource_uid(*old(host), ron_path@) < i64::MAX - 1,
            match spec_parse_gdron_file(old(host).files.spec_file_data(ron_path@)) {
                Some((class, uid, p)) => encode_utf8(class).len() < 0x100000000
                    && encode_utf8(class).len() + old(host).files.spec_file_data(
                    ron_path@,
                ).len() + 64 <= usize::MAX,
                None => false,
            },
        ensures
            final(host).wf(),
            final(host).locked == old(host).locked,
            final(self).debug == old(self).debug,
            final(self).remaps@.len() == old(self).remaps@.len() + 1,
            final(self).remaps@.subrange(0, old(self).remaps@.len() as int) == old(self).remaps@,
            ({
                let entry = final(self).remaps@.last();
                &&& entry.ron_path@ == ron_path@
                &&& entry.bin_path@ == bin_path@
                &&& entry.uid as int == spec_resource_uid(*old(host), ron_path@)
            }),
            match spec_parse_gdron_file(old(host).files.spec_file_data(ron_path@)) {
                Some((class, uid, p)) => {
                    let payload = old(host).files.spec_file_data(ron_path@).skip(p);
                    exists|u: int|
                        (0 <= u < i64::MAX) && final(host).files.spec_file_data(bin_path@)
                            == gdbin_header_bytes(class, #[trigger] spec_id_to_text(u))
                            + payload && r@ == gdbin_header_bytes(
                            class,
                            spec_id_to_text(u),
                        ) + payload
                },
                None => false,
            },
            final(host).files.spec_has_file(bin_path@),
            forall|p: Seq<char>|
                p != bin_path@ ==> final(host).files.spec_has_file(p) == old(host).files.spec_has_file(p),
            forall|p: Seq<char>|
                p != bin_path@ && old(host).files.spec_has_file(p) ==> final(host).files.spec_file_data(p) == old(host).files.spec_file_data(p),
            ({
                let uid0 = spec_resource_uid(*old(host), ron_path@);
                0 <= uid0 < i64::MAX ==> final(host).registry.spec_has_id(uid0) && final(host).registry.spec_id_path(uid0) == bin_path@
            }),
    {
        let ghost pre = *old(host);
        let class = match _int_get_type(ron_path, host) {
            Ok(c) => c,
            Err(_) => {
                proof {
                    assert(false);
                }
                String::new()
            },
        };
        let record = match _int_load_file(ron_path, &class, host) {
            Ok(rec) => rec,
            Err(_) => {
                proof {
                    assert(false);
                }
                ResourceRecord { class_identity: String::new(), payload: Vec::new() }
            },
        };
        let ghost h1 = *host;
        let remap_data = RemapData::new(ron_path, bin_path, host);
        proof {
            crate::refs::lemma_load_value_depends(*host, pre, ron_path@, class@);
            assert(remap_data.uid as int == spec_resource_uid(pre, ron_path@)) by {
                assert(crate::gdprop_io::spec_container_header(*host, ron_path@)
                    == crate::gdprop_io::spec_container_header(pre, ron_path@));
            }
        }
        remap_data.transfer_uid(host);
        let ghost before_save = *host;
        proof {
            match spec_parse_gdron_file(pre.files.spec_file_data(ron_path@)) {
                Some((c0, u0, p0)) => {
                    let data = pre.files.spec_file_data(ron_path@);
                    crate::gd_meta::lemma_first_byte_at_bounds(data, 10, 0);
                    assert(0 <= p0 <= data.len());
                    assert(record.payload@.len() == data.len() - p0);
                    let uid0 = spec_resource_uid(pre, ron_path@);
                    assert(uid0 == crate::uid::spec_text_to_id(u0));
                    assert(h1.registry.next_id < i64::MAX) by {
                        if 0 <= uid0 < i64::MAX {
                            assert(crate::gdprop::spec_self_healed(
                                pre,
                                h1,
                                ron_path@,
                                uid0,
                            ));
                        } else {
                            assert(h1.registry == pre.registry);
                        }
                    }
                    assert(before_save.registry.next_id < i64::MAX);
                    assert(before_save.registry.has_capacity());
                },
                None => {
                    assert(false);
                },
            }
        }
        let saved = save_bin(&record, bin_path, host);
        proof {
            assert(saved is Ok);
        }
        let bytes = match host.files.get_file(bin_path) {
            Some(v) => v,
            None => {
                proof {
                    assert(false);
                }
                Vec::new()
            },
        };
        self.remaps.push(remap_data);
        proof {
            assert(final(self).remaps@.subrange(0, old(self).remaps@.len() as int)
                =~= old(self).remaps@);
        }
        bytes
    }

    /// Ends the export session: pops every remap, reverts its UID to the
    /// source path, and deletes its artifact.  A deletion that fails is
    /// collected and reported, never allowed to stop the remaining
    /// reverts: the log is empty afterwards on every path.
    pub fn _int_export_end(&mut self, host: &mut ResourceHost) -> (failed: Vec<String>)
        requires
            old(host).wf(),
        ensures
            final(host).wf(),
            final(host).locked == old(host).locked,
            final(self).remaps@.len() == 0,
            final(self).debug == old(self).debug,
            spec_remaps_independent(old(self).remaps@) ==> spec_export_reverted(
                *old(host),
                *final(host),
                old(self).remaps@,
                failed@,
            ),
    {
        let ghost pre = *old(host);
        let ghost rs = self.remaps@;
        let ghost n = rs.len() as int;
        let mut failed: Vec<String> = Vec::new();
        loop
            invariant_except_break
                pre == *old(host),
                rs == old(self).remaps@,
                n == rs.len(),
                host.wf(),
                host.locked == pre.locked,
                self.debug == old(self).debug,
                self.remaps@ =~= rs.subrange(0, self.remaps@.len() as int),
                self.remaps@.len() <= n,
                spec_remaps_independent(rs) ==> forall|i: int|
                    self.remaps@.len() <= i < n && 0 <= rs[i].uid < i64::MAX
                        ==> host.registry.spec_has_id(#[trigger] rs[i].uid as int)
                        && host.registry.spec_id_path(rs[i].uid as int)
                        == rs[i].ron_path@,
                spec_remaps_independent(rs) ==> forall|i: int|
                    self.remaps@.len() <= i < n && !pre.spec_locked(
                        #[trigger] rs[i].bin_path@,
                    ) ==> !host.files.spec_has_file(rs[i].bin_path@),
                spec_remaps_independent(rs) ==> forall|u: int|
                    !spec_remaps_carry_uid(rs.skip(self.remaps@.len() as int), u)
                        ==> host.registry.spec_has_id(u) == pre.registry.spec_has_id(u),
                spec_remaps_independent(rs) ==> forall|u: int|
                    !spec_remaps_carry_uid(rs.skip(self.remaps@.len() as int), u)
                        && pre.registry.spec_has_id(u) ==> host.registry.spec_id_path(u)
                        == pre.registry.spec_id_path(u),
                spec_remaps_independent(rs) ==> forall|p: Seq<char>|
                    !spec_remaps_carry_bin(rs.skip(self.remaps@.len() as int), p)
                        ==> host.files.spec_has_file(p) == pre.files.spec_has_file(p),
                spec_remaps_independent(rs) ==> forall|p: Seq<char>|
                    !spec_remaps_carry_bin(rs.skip(self.remaps@.len() as int), p)
                        && pre.files.spec_has_file(p) ==> host.files.spec_file_data(p)
                        == pre.files.spec_file_data(p),
                spec_remaps_independent(rs) ==> forall|i: int|
                    self.remaps@.len() <= i < n && pre.spec_locked(
                        #[trigger] rs[i].bin_path@,
                    ) ==> exists|j: int|
                        0 <= j < failed@.len() && #[trigger] failed@[j]@
                            == rs[i].bin_path@,
            ensures
                self.remaps@.len() == 0,
                host.wf(),
                host.locked == pre.locked,
                self.debug == old(self).debug,
                spec_remaps_independent(rs) ==> ({
                    &&& forall|i: int|
                        0 <= i < n && 0 <= rs[i].uid < i64::MAX
                            ==> host.registry.spec_has_id(#[trigger] rs[i].uid as int)
                            && host.registry.spec_id_path(rs[i].uid as int)
                            == rs[i].ron_path@
                    &&& forall|i: int|
                        0 <= i < n && !pre.spec_locked(#[trigger] rs[i].bin_path@)
                            ==> !host.files.spec_has_file(rs[i].bin_path@)
                    &&& forall|u: int|
                        !spec_remaps_carry_uid(rs, u) ==> host.registry.spec_has_id(u)
                            == pre.registry.spec_has_id(u)
                    &&& forall|u: int|
                        !spec_remaps_carry_uid(rs, u) && pre.registry.spec_has_id(u)
                            ==> host.registry.spec_id_path(u) == pre.registry.spec_id_path(
                            u,
                        )
                    &&& forall|p: Seq<char>|
                        !spec_remaps_carry_bin(rs, p) ==> host.files.spec_has_file(p)
                            == pre.files.spec_has_file(p)
                    &&& forall|p: Seq<char>|
                        !spec_remaps_carry_bin(rs, p) && pre.files.spec_has_file(p)
                            ==> host.files.spec_file_data(p) == pre.files.spec_file_data(
                            p,
                        )
                    &&& forall|i: int|
                        0 <= i < n && pre.spec_locked(#[trigger] rs[i].bin_path@)
                            ==> exists|j: int|
                            0 <= j < failed@.len() && #[trigger] failed@[j]@
                                == rs[i].bin_path@
                }),
            decreases self.remaps.len(),
        {
            let remap = match self.remaps.pop() {
                Some(r) => r,
                None => {
                    break;
                },
            };
            let ghost k = self.remaps@.len() as int;
            let ghost h_iter = *host;
            let ghost f_iter = failed@;
            proof {
                assert(remap == rs[k]);
                assert(self.remaps@ =~= rs.subrange(0, k));
            }
            remap.undo_uid(host);
            proof {
                assert forall|q: Seq<char>| host.spec_locked(q) == pre.spec_locked(
                    q,
                ) by {
                    if host.spec_locked(q) {
                        let ix = choose|ix: int|
                            0 <= ix < host.locked.len() && #[trigger] host.locked[ix]@
                                == q;
                        assert(pre.locked[ix]@ == q);
                    }
                    if pre.spec_locked(q) {
                        let ix = choose|ix: int|
                            0 <= ix < pre.locked.len() && #[trigger] pre.locked[ix]@ == q;
                        assert(host.locked[ix]@ == q);
                    }
                }
            }
            if host.is_locked(&remap.bin_path) {
                failed.push(remap.bin_path.clone());
            } else {
                host.files.remove_file(&remap.bin_path);
            }
            proof {
                if spec_remaps_independent(rs) {
                    assert forall|u: int| !spec_remaps_carry_uid(rs.skip(k), u) implies !(
                    #[trigger] spec_remaps_carry_uid(rs.skip(k + 1), u)) && rs[k].uid
                        != u by {
                        if spec_remaps_carry_uid(rs.skip(k + 1), u) {
                            let i = choose|i: int|
                                0 <= i < rs.skip(k + 1).len() && #[trigger] rs.skip(
                                    k + 1,
                                )[i].uid == u;
                            assert(rs.skip(k)[i + 1].uid == u);
                        }
                        if rs[k].uid == u {
                            assert(rs.skip(k)[0].uid == u);
                        }
                    }
                    assert forall|p: Seq<char>|
                        !spec_remaps_carry_bin(rs.skip(k), p) implies !(
                    #[trigger] spec_remaps_carry_bin(rs.skip(k + 1), p)) && rs[k].bin_path@
                        != p by {
                        if spec_remaps_carry_bin(rs.skip(k + 1), p) {
                            let i = choose|i: int|
                                0 <= i < rs.skip(k + 1).len() && #[trigger] rs.skip(
                                    k + 1,
                                )[i].bin_path@ == p;
                            assert(rs.skip(k)[i + 1].bin_path@ == p);
                        }
                        if rs[k].bin_path@ == p {
                            assert(rs.skip(k)[0].bin_path@ == p);
                        }
                    }
                    assert forall|i: int| k + 1 <= i < n implies #[trigger] rs[i].uid
                        != rs[k].uid && rs[i].bin_path@ != rs[k].bin_path@
                        && rs[i].ron_path@ != rs[k].bin_path@ by {}
                    assert forall|u: int|
                        !spec_remaps_carry_uid(rs.skip(k), u) implies host.registry.spec_has_id(
                        u,
                    ) == pre.registry.spec_has_id(u) && (pre.registry.spec_has_id(u)
                        ==> host.registry.spec_id_path(u) == pre.registry.spec_id_path(
                        u,
                    )) by {
                        assert(!spec_remaps_carry_uid(rs.skip(k + 1), u));
                        assert(rs[k].uid != u);
                        assert(h_iter.registry.spec_has_id(u) == pre.registry.spec_has_id(
                            u,
                        ));
                        if 0 <= remap.uid < i64::MAX {
                            assert(host.registry.spec_has_id(u)
                                == h_iter.registry.spec_has_id(u));
                        } else {
                            assert(host.registry == h_iter.registry);
                        }
                    }
                    assert forall|p: Seq<char>|
                        !spec_remaps_carry_bin(rs.skip(k), p) implies host.files.spec_has_file(
                        p,
                    ) == pre.files.spec_has_file(p) && (pre.files.spec_has_file(p)
                        ==> host.files.spec_file_data(p) == pre.files.spec_file_data(
                        p,
                    )) by {
                        assert(!spec_remaps_carry_bin(rs.skip(k + 1), p));
                        assert(rs[k].bin_path@ != p);
                        assert(h_iter.files.spec_has_file(p) == pre.files.spec_has_file(
                            p,
                        ));
                        assert(host.files.spec_has_file(p) == h_iter.files.spec_has_file(
                            p,
                        ));
                    }
                    assert forall|i: int|
                        k <= i < n && pre.spec_locked(#[trigger] rs[i].bin_path@) implies
                        exists|j: int|
                        0 <= j < failed@.len() && #[trigger] failed@[j]@
                            == rs[i].bin_path@ by {
                        if i == k {
                            assert(failed@.last()@ == rs[k].bin_path@);
                        } else {
                            let j = choose|j: int|
                                0 <= j < f_iter.len() && #[trigger] f_iter[j]@
                                    == rs[i].bin_path@;
                            assert(failed@[j]@ == rs[i].bin_path@);
                        }
                    }
                }
            }
        }
        failed
    }
}

} // verus!
