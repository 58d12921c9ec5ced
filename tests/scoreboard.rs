use chunk_store::cli::{LineReader, ScrollBuf};
use chunk_store::mesh::MeshChunk;
use chunk_store::chunk::{Chunk, ChunkKind};
use chunk_store::pos::Pos;
use chunk_store::scoreboard::{Scoreboard, ScoreboardDisplayPosition, ScoreboardPacket};

#[test]
fn show_once() {
    let mut s = Scoreboard::new();
    let p = s.show();
    assert_eq!(p.len(), 2);
    assert!(matches!(p[0], ScoreboardPacket::CreateObjective));
    assert!(matches!(p[1], ScoreboardPacket::Display(ScoreboardDisplayPosition::Sidebar)));
    assert!(s.show().is_empty());
}

#[test]
fn display_moves() {
    let mut s = Scoreboard::new();
    assert!(s.display(ScoreboardDisplayPosition::List).is_empty());
    s.show();
    let p = s.display(ScoreboardDisplayPosition::BelowName);
    assert!(matches!(p[..], [ScoreboardPacket::Display(ScoreboardDisplayPosition::BelowName)]));
    assert!(s.display(ScoreboardDisplayPosition::BelowName).is_empty());
}

#[test]
fn conceal_only_when_not_shown() {
    let mut s = Scoreboard::new();
    assert!(matches!(s.conceal()[..], [ScoreboardPacket::RemoveObjective]));
    s.show();
    assert!(s.conceal().is_empty());
}

#[test]
fn lines_are_made_unique() {
    let mut s = Scoreboard::new();
    let p = s.set_line(0, "hi".to_string());
    match &p[..] {
        [ScoreboardPacket::RemoveLine(old), ScoreboardPacket::CreateLine(new, 0)] => {
            assert_eq!(old, "");
            assert_eq!(new, "hi");
        }
        _ => panic!("unexpected packets {:?}", p),
    }
    let p = s.set_line(1, "hi".to_string());
    assert!(matches!(&p[1], ScoreboardPacket::CreateLine(t, 1) if t == "hi "));
    let p = s.set_line(2, "hi".to_string());
    assert!(matches!(&p[1], ScoreboardPacket::CreateLine(t, 2) if t == "hi  "));
    assert!(s.set_line(0, "hi".to_string()).is_empty());
    let p = s.clear_line(1);
    assert!(matches!(&p[..], [ScoreboardPacket::RemoveLine(t)] if t == "hi "));
}

#[test]
fn scroll_buffer_keeps_last_lines() {
    let mut b = ScrollBuf::new(3, 2);
    assert!(b.restore());
    b.buf().extend(b"one\ntwo\nthree\nfour".iter());
    b.trim();
    assert_eq!(b.buf().iter().cloned().collect::<Vec<u8>>(), b"two\nthree\nfour".to_vec());
    let mut short = ScrollBuf::new_no_restore(1, 5);
    assert!(!short.restore());
    short.buf().extend(b"a\nb".iter());
    short.trim();
    assert_eq!(short.buf().len(), 3);
}

#[test]
fn line_reader_region() {
    let mut r = LineReader::new("> ", 4, 10);
    assert_eq!(r.prompt(), "> ");
    assert_eq!(r.buf().min(), 4);
    assert!(!r.buf().restore());
}

#[test]
fn mesh_chunk_holds_its_column() {
    let mut c = Chunk::new(ChunkKind::Paletted);
    c.set_block(Pos::new(0, 0, 0), 4).unwrap();
    let m = MeshChunk::new(c);
    assert_eq!(m.chunk().get_block(Pos::new(0, 0, 0)), Ok(4));
}
