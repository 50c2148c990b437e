//! What holds of a finished plot file, and of a run that takes up a file
//! which an earlier run left unfinished.
use crate::hasher::{
    blank_file,
    layout_of,
    lemma_behind_last_scoop,
    lemma_trailer_commutes,
    lemma_trailer_twice,
    mem_budget,
    mem_unit,
    plotted,
    run_of,
    HasherTask,
    HostInfo,
    MAX_NONCES,
    NONCE_SIZE,
    NUM_BUFFERS,
};
use crate::poc_hashing::{
    cache_with,
    lemma_batch_in_parts,
    lemma_cell,
    scoop,
    scoop_of,
    slot_of,
};
use crate::writer::{
    has_marker,
    lemma_le_bytes,
    lemma_resume_round_trip,
    recorded,
    trailer,
    with_trailer,
    TRAILER_SIZE,
};
use vstd::arithmetic::div_mod::{
    lemma_fundamental_div_mod,
    lemma_mod_bound,
    lemma_mod_multiples_basic,
};
use vstd::prelude::*;

verus! {

/// The plot file of the nonces `start, .., start + nonces - 1` of account
/// `id`, written from nothing in one run.
pub open spec fn complete_plot(id: u64, start: u64, nonces: int) -> Seq<u8> {
    plotted(blank_file(nonces), id, start, nonces, 0)
}

/// The plot file as a run leaves it that stops after `progress` nonces and
/// records them: those nonces in their slots, zeros in the others, and the
/// trailer for `progress`.
pub open spec fn interrupted_plot(id: u64, start: u64, nonces: int, progress: int) -> Seq<u8> {
    with_trailer(
        cache_with(blank_file(nonces), nonces, 0, id, start, progress),
        progress as u32,
    )
}

/// The nonces that the file of `task` holds on the machine `host`; 0 where
/// they do not fit.
pub open spec fn planned_nonces(task: HasherTask, host: HostInfo) -> int {
    match layout_of(
        task.nonces,
        task.start_nonce,
        task.direct_io,
        host.free_disk_space,
        host.sector_size,
    ) {
        Ok(layout) => layout.nonces as int,
        Err(_) => 0,
    }
}

/// The layout of a complete plot file: `nonces * NONCE_SIZE` bytes of nonce
/// data and the trailer; byte `j` of scoop `s` of the nonce in slot `k`
/// stands at position `s * nonces * 64 + k * 64 + j`; the trailer records
/// all the nonces.
pub proof fn lemma_plot_layout(id: u64, start: u64, nonces: int, s: int, k: int, j: int)
    requires
        0 < nonces <= MAX_NONCES,
        start + nonces <= u64::MAX + 1,
        0 <= s < 4096,
        0 <= k < nonces,
        0 <= j < 64,
    ensures
        complete_plot(id, start, nonces).len() == nonces * NONCE_SIZE + TRAILER_SIZE,
        complete_plot(id, start, nonces)[s * nonces * 64 + k * 64 + j] == scoop(
            id,
            (start + k) as u64,
            s,
        )[j],
        complete_plot(id, start, nonces).subrange(
            nonces * NONCE_SIZE,
            nonces * NONCE_SIZE + TRAILER_SIZE,
        ) == trailer(nonces as u32),
{
    let file = complete_plot(id, start, nonces);
    let p = s * nonces * 64 + k * 64 + j;
    assert(0 <= s * nonces * 64 && s * nonces * 64 + nonces * 64 <= nonces * 262144)
        by (nonlinear_arith)
        requires
            0 <= s < 4096,
            0 < nonces,
    ;
    lemma_cell(nonces, s, k, p);
    lemma_plot_trailer(id, start, nonces);
}

/// A complete plot file ends with the trailer that records all its nonces.
pub proof fn lemma_plot_trailer(id: u64, start: u64, nonces: int)
    requires
        0 <= nonces <= MAX_NONCES,
    ensures
        complete_plot(id, start, nonces).len() == nonces * NONCE_SIZE + TRAILER_SIZE,
        complete_plot(id, start, nonces).subrange(
            nonces * NONCE_SIZE,
            nonces * NONCE_SIZE + TRAILER_SIZE,
        ) == trailer(nonces as u32),
        has_marker(complete_plot(id, start, nonces)),
        recorded(complete_plot(id, start, nonces)) == nonces,
{
    let file = complete_plot(id, start, nonces);
    let end = file.subrange(nonces * NONCE_SIZE, nonces * NONCE_SIZE + TRAILER_SIZE);
    assert(end.len() == 8);
    assert forall|i: int| 0 <= i < 8 implies end[i] == trailer(nonces as u32)[i] by {
        if nonces > 0 {
            lemma_behind_last_scoop(nonces, nonces * NONCE_SIZE + i);
        }
    }
    assert(end =~= trailer(nonces as u32));
    lemma_resume_round_trip(file, nonces as u32);
}

/// A position in the nonce data belongs to one of the 4096 scoops and to one
/// of the slots.
pub proof fn lemma_within_scoops(nonces: int, p: int)
    requires
        0 < nonces,
        0 <= p < nonces * NONCE_SIZE,
    ensures
        0 <= scoop_of(p, nonces) < 4096,
        0 <= slot_of(p, nonces) < nonces,
{
    let d = 64 * nonces;
    lemma_fundamental_div_mod(p, d);
    lemma_fundamental_div_mod(p, 64);
    lemma_mod_bound(p / 64, nonces);
    lemma_mod_bound(p, d);
    assert(0 <= p / d < 4096) by (nonlinear_arith)
        requires
            p == d * (p / d) + p % d,
            0 <= p % d < d,
            0 <= p < d * 4096,
    ;
}

/// A run that takes up an unfinished file leaves the nonces that the file
/// records as written where they are.
pub proof fn lemma_resume_keeps_written(
    found: Seq<u8>,
    id: u64,
    start: u64,
    nonces: int,
    progress: int,
    p: int,
)
    requires
        0 <= progress <= nonces,
        found.len() == nonces * NONCE_SIZE + TRAILER_SIZE,
        0 <= p < nonces * NONCE_SIZE,
        slot_of(p, nonces) < progress,
    ensures
        plotted(found, id, start, nonces, progress)[p] == found[p],
{
}

/// Resuming gives the file of an uninterrupted run: where the file found
/// records `progress` nonces and holds them as the complete file does, the
/// run that takes it up ends with the complete file, whatever the file found
/// holds in the other slots.
pub proof fn lemma_resume_completes(found: Seq<u8>, id: u64, start: u64, nonces: int)
    requires
        0 <= nonces <= MAX_NONCES,
        start + nonces <= u64::MAX + 1,
        found.len() == nonces * NONCE_SIZE + TRAILER_SIZE,
        has_marker(found),
        recorded(found) <= nonces,
        forall|p: int|
            0 <= p < nonces * NONCE_SIZE && slot_of(p, nonces) < recorded(found) ==> found[p]
                == complete_plot(id, start, nonces)[p],
    ensures
        plotted(found, id, start, nonces, recorded(found) as int) == complete_plot(
            id,
            start,
            nonces,
        ),
{
    let progress = recorded(found) as int;
    let whole = complete_plot(id, start, nonces);
    let resumed = plotted(found, id, start, nonces, progress);
    let data = nonces * NONCE_SIZE;
    lemma_plot_trailer(id, start, nonces);
    assert(resumed.len() == whole.len());
    assert forall|p: int| 0 <= p < whole.len() implies resumed[p] == whole[p] by {
        if p >= data {
            let end = whole.subrange(data, data + 8);
            assert(whole[p] == end[p - data]);
            if progress >= nonces {
                lemma_le_bytes(found[data], found[data + 1], found[data + 2], found[data + 3]);
                assert(found.len() - 8 == data);
                assert(recorded(found) == nonces as u32);
            } else {
                lemma_behind_last_scoop(nonces, p);
            }
        } else {
            lemma_within_scoops(nonces, p);
            let k = slot_of(p, nonces);
            if k >= progress {
                assert(((start + progress) as u64) + (k - progress) == start + k);
            }
        }
    }
    assert(resumed =~= whole);
}

/// A run that is interrupted after any number of nonces and then resumed
/// gives what the uninterrupted run gives.
pub proof fn lemma_interrupted_then_resumed(task: HasherTask, host: HostInfo, progress: int)
    requires
        !task.benchmark,
        run_of(task, host, None) is Ok,
        0 <= progress <= planned_nonces(task, host),
    ensures
        run_of(
            task,
            host,
            Some(
                interrupted_plot(
                    task.numeric_id,
                    task.start_nonce,
                    planned_nonces(task, host),
                    progress,
                ),
            ),
        ) == run_of(task, host, None),
        run_of(task, host, None) == Ok::<Option<Seq<u8>>, crate::hasher::RunError>(
            Some(complete_plot(task.numeric_id, task.start_nonce, planned_nonces(task, host))),
        ),
{
    let id = task.numeric_id;
    let start = task.start_nonce;
    let nonces = planned_nonces(task, host);
    let blank = blank_file(nonces);
    let found = interrupted_plot(id, start, nonces, progress);
    let filled = cache_with(blank, nonces, 0, id, start, progress);
    assert(found.subrange(found.len() - 8, found.len() as int) =~= trailer(progress as u32));
    lemma_resume_round_trip(found, progress as u32);
    if progress < nonces {
        lemma_trailer_twice(filled, progress as u32, nonces as u32);
        lemma_trailer_commutes(blank, nonces, 0, id, start, progress, nonces as u32);
        lemma_trailer_twice(
            Seq::new((nonces * NONCE_SIZE + TRAILER_SIZE) as nat, |q: int| 0u8),
            0,
            nonces as u32,
        );
        lemma_trailer_twice(blank, 0, nonces as u32);
        lemma_batch_in_parts(
            with_trailer(blank, nonces as u32),
            nonces,
            0,
            id,
            start,
            progress,
            nonces - progress,
        );
        assert(with_trailer(found, nonces as u32) == cache_with(
            with_trailer(blank, nonces as u32),
            nonces,
            0,
            id,
            start,
            progress,
        ));
    } else {
        lemma_plot_trailer(id, start, nonces);
        if nonces > 0 {
            lemma_trailer_commutes(blank, nonces, 0, id, start, nonces, nonces as u32);
        } else {
            assert(filled =~= blank);
            assert(found =~= blank);
        }
    }
}

/// The memory for the buffers is whole units, so each of the buffers holds
/// whole sectors' worth of nonces.
pub proof fn lemma_buffers_hold_whole_sectors(
    request: int,
    segment_size: int,
    avail_mem: int,
    nps: int,
    gpu: bool,
    gpu_mem_needed: int,
)
    requires
        nps > 0,
    ensures
        mem_budget(request, segment_size, avail_mem, nps, gpu, gpu_mem_needed) % mem_unit(nps, gpu)
            == 0,
        mem_budget(request, segment_size, avail_mem, nps, gpu, gpu_mem_needed) >= mem_unit(
            nps,
            gpu,
        ),
        !gpu ==> (mem_budget(request, segment_size, avail_mem, nps, gpu, gpu_mem_needed) / (
        NUM_BUFFERS as int)) % (nps * NONCE_SIZE) == 0,
{
    let unit = mem_unit(nps, gpu);
    let budget = mem_budget(request, segment_size, avail_mem, nps, gpu, gpu_mem_needed);
    assert(unit > 0) by (nonlinear_arith)
        requires
            unit == 2 * 262144 * if gpu && nps < 16 {
                16int
            } else {
                nps
            },
            nps > 0,
    ;
    let m = budget / unit;
    lemma_fundamental_div_mod(budget, unit);
    if budget != unit {
        let least = crate::scheduler::min_int(
            if request == 0 {
                segment_size
            } else if gpu {
                request - gpu_mem_needed
            } else {
                request
            },
            segment_size + gpu_mem_needed,
        );
        let free = avail_mem * 1024 * 3 / 4;
        let free_host = if gpu && free > gpu_mem_needed {
            free - gpu_mem_needed
        } else {
            free
        };
        let x = crate::scheduler::min_int(least, free_host) / unit;
        assert(budget == x * unit);
        lemma_mod_multiples_basic(x, unit);
    } else {
        lemma_mod_multiples_basic(1, unit);
    }
    if !gpu {
        let half = nps * NONCE_SIZE;
        assert(unit == 2 * half) by (nonlinear_arith)
            requires
                unit == 2 * 262144 * nps,
                half == nps * 262144,
        ;
        assert(budget == 2 * (half * m)) by (nonlinear_arith)
            requires
                budget == unit * m,
                unit == 2 * half,
        ;
        assert(budget / 2 == half * m);
        assert(half * m == m * half) by (nonlinear_arith);
        assert(half > 0) by (nonlinear_arith)
            requires
                half == nps * 262144,
                nps > 0,
        ;
        lemma_mod_multiples_basic(m, half);
    }
}

} // verus!
