# blktamper_formats

Reads MBR, GPT, FAT12/16/32 and exFAT structures from a block device and says what is
there: every field with the bytes it came from, every cross-check that fails, and
everything a delete left behind. It also plans how to scrub that residue without touching
a live record. Nothing here writes to a device.

The library is written in Verus. Each reader's contract equates its report with a spec
function of the device, so what is shown is a fact about the bytes and not about the code.

| Module | What is in it |
|---|---|
| `source`, `common`, `bytes`, `text` | devices, checked arithmetic, little-endian words, text |
| `desc`, `status`, `extent`, `checksum` | record layouts and their reader, severities, spans, sums |
| `scrub` | edits and the rules that keep a plan away from live records |
| `mbr`, `gpt`, `fat`, `exfat` | one format each: layouts, findings, the reader, a generator of valid images |
| `registry` | the formats in the order they are tried |

Proof functions named `lemma_*` and marked `pub` state what holds across functions: a
walk ends whatever the FAT holds, every directory slot is accounted for, a deletion is
reversible until something overwrites it, a plan's edits lie on the records it names
and do not overlap, and scrubbing a directory twice changes nothing the second time as
long as the boot sector and the FAT stand in front of it.
